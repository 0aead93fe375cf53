//! Challenges of authenticators.
//!
//! The shape of an assertion is checked, not its signature.
use crate::collections::Table;
use vstd::prelude::*;

verus! {

/// The fewest bytes of authenticator data.
pub const MIN_AUTHENTICATOR_DATA: usize = 37;

/// The text of bytes, with a replacement for what is not UTF-8.
pub uninterp spec fn lossy_text(bytes: Seq<u8>) -> Seq<char>;

/// `String::from_utf8_lossy`. The text depends on the bytes alone, and bytes that are UTF-8 give
/// the text that they encode.
#[verifier::external_body]
fn text_of_bytes(bytes: &[u8]) -> (r: String)
    ensures
        r@ == lossy_text(bytes@),
        vstd::utf8::valid_utf8(bytes@) ==> r@ == vstd::utf8::decode_utf8(bytes@),
{
    String::from_utf8_lossy(bytes).to_string()
}

/// `rand::random`: 32 bytes by chance. Nothing is claimed of them but their number.
#[verifier::external_body]
fn random_bytes() -> (r: Vec<u8>)
    ensures
        r@.len() == 32,
{
    rand::random::<[u8; 32]>().to_vec()
}

/// Whether a challenge can be drawn by chance.
pub closed spec fn is_chance(challenge: Seq<u8>) -> bool {
    exists|r: Vec<u8>| r@ == challenge && #[trigger] call_ensures(random_bytes, (), r)
}

/// Why an assertion or a challenge is refused.
#[derive(Debug, Clone, Copy, PartialEq, Eq, Structural)]
pub enum WebAuthnError {
    /// No challenge is known for the credential that an assertion names.
    UnknownCredential,
    /// There is too little authenticator data.
    ShortAuthenticatorData,
    /// There is no client data.
    EmptyClientData,
    /// No challenge is known for the credential that a login names.
    CredentialNotRegistered,
}

impl WebAuthnError {
    /// The failure in words.
    pub open spec fn text(self) -> Seq<char> {
        match self {
            WebAuthnError::UnknownCredential => "unknown credential"@,
            WebAuthnError::ShortAuthenticatorData => "authenticator data too short (minimum 37 bytes)"@,
            WebAuthnError::EmptyClientData => "empty client data"@,
            WebAuthnError::CredentialNotRegistered => "credential not registered"@,
        }
    }

    /// The failure in words.
    pub fn message(self) -> (r: &'static str)
        ensures
            r@ == self.text(),
    {
        match self {
            WebAuthnError::UnknownCredential => "unknown credential",
            WebAuthnError::ShortAuthenticatorData => "authenticator data too short (minimum 37 bytes)",
            WebAuthnError::EmptyClientData => "empty client data",
            WebAuthnError::CredentialNotRegistered => "credential not registered",
        }
    }
}

/// What an assertion comes to, given whether a challenge is known for its credential.
pub open spec fn assertion_outcome(known: bool, authenticator_data: nat, client_data: nat, signature: nat) -> Result<
    bool,
    WebAuthnError,
> {
    if !known {
        Err(WebAuthnError::UnknownCredential)
    } else if authenticator_data < MIN_AUTHENTICATOR_DATA {
        Err(WebAuthnError::ShortAuthenticatorData)
    } else if client_data == 0 {
        Err(WebAuthnError::EmptyClientData)
    } else {
        Ok(signature != 0)
    }
}

/// A challenge for a registration.
#[derive(Debug)]
pub struct RegistrationChallenge {
    /// What has to be signed.
    pub challenge: Vec<u8>,
    /// Whom it is signed for.
    pub rp_id: String,
}

/// The challenges that are out.
pub struct WebAuthnVerifier {
    challenges: Table<String, Vec<u8>>,
    rp_id: String,
}

impl WebAuthnVerifier {
    /// The challenge of each credential.
    pub closed spec fn challenges(&self) -> Map<Seq<char>, Vec<u8>> {
        self.challenges@
    }

    /// Whom challenges are signed for.
    pub closed spec fn party(&self) -> Seq<char> {
        self.rp_id@
    }

    /// Whether the value is well formed.
    pub closed spec fn wf(&self) -> bool {
        self.challenges.wf()
    }

    /// A verifier for this machine, without challenges.
    #[must_use]
    pub fn new() -> (r: Self)
        ensures
            r.wf(),
            r.challenges() == Map::<Seq<char>, Vec<u8>>::empty(),
            r.party() == "localhost"@,
    {
        WebAuthnVerifier { challenges: Table::new(), rp_id: "localhost".to_owned() }
    }

    /// A verifier for a party, without challenges.
    #[must_use]
    pub fn with_rp_id(rp_id: String) -> (r: Self)
        ensures
            r.wf(),
            r.challenges() == Map::<Seq<char>, Vec<u8>>::empty(),
            r.party() == rp_id@,
    {
        WebAuthnVerifier { challenges: Table::new(), rp_id }
    }

    /// Whom challenges are signed for.
    pub fn rp_id(&self) -> (r: &str)
        ensures
            r@ == self.party(),
    {
        self.rp_id.as_str()
    }

    /// What an assertion on a credential of a name comes to.
    pub fn check_assertion(
        &self,
        credential: &String,
        authenticator_data: &[u8],
        client_data_json: &[u8],
        signature: &[u8],
    ) -> (r: Result<bool, WebAuthnError>)
        requires
            self.wf(),
        ensures
            r == assertion_outcome(
                self.challenges().contains_key(credential@),
                authenticator_data@.len(),
                client_data_json@.len(),
                signature@.len(),
            ),
    {
        if !self.challenges.contains_key(credential) {
            return Err(WebAuthnError::UnknownCredential);
        }
        if authenticator_data.len() < MIN_AUTHENTICATOR_DATA {
            return Err(WebAuthnError::ShortAuthenticatorData);
        }
        if client_data_json.len() == 0 {
            return Err(WebAuthnError::EmptyClientData);
        }
        Ok(signature.len() != 0)
    }

    /// What an assertion comes to. Its signature only has to be there.
    pub fn verify_assertion(
        &self,
        credential_id: &[u8],
        authenticator_data: &[u8],
        client_data_json: &[u8],
        signature: &[u8],
    ) -> (r: Result<bool, WebAuthnError>)
        requires
            self.wf(),
        ensures
            r == assertion_outcome(
                self.challenges().contains_key(lossy_text(credential_id@)),
                authenticator_data@.len(),
                client_data_json@.len(),
                signature@.len(),
            ),
            vstd::utf8::valid_utf8(credential_id@) ==> r == assertion_outcome(
                self.challenges().contains_key(vstd::utf8::decode_utf8(credential_id@)),
                authenticator_data@.len(),
                client_data_json@.len(),
                signature@.len(),
            ),
    {
        let credential = text_of_bytes(credential_id);
        self.check_assertion(&credential, authenticator_data, client_data_json, signature)
    }

    /// Puts out a challenge for the registration of a user, in place of the one before.
    pub fn issue_registration(&mut self, user_id: &str, challenge: Vec<u8>) -> (r: RegistrationChallenge)
        requires
            old(self).wf(),
        ensures
            final(self).wf(),
            final(self).party() == old(self).party(),
            r.challenge@ == challenge@,
            r.rp_id@ == old(self).party(),
            ({
                let key = "reg:"@ + user_id@;
                &&& final(self).challenges().contains_key(key)
                &&& final(self).challenges()[key]@ == challenge@
                &&& final(self).challenges().remove(key) == old(self).challenges().remove(key)
            }),
    {
        let ghost before = self.challenges();
        let ghost key = "reg:"@ + user_id@;
        let kept = copy_bytes(&challenge);
        let name = "reg:".to_owned().concat(user_id);
        assert(name@ == key);
        let _ = self.challenges.insert(name, kept);
        assert(self.challenges().remove(key) =~= before.remove(key));
        RegistrationChallenge { challenge, rp_id: self.rp_id.clone() }
    }

    /// Puts out a challenge by chance for the registration of a user.
    pub fn start_registration(&mut self, user_id: &str) -> (r: Result<RegistrationChallenge, WebAuthnError>)
        requires
            old(self).wf(),
        ensures
            final(self).wf(),
            final(self).party() == old(self).party(),
            r is Ok,
            r->Ok_0.challenge@.len() == 32,
            is_chance(r->Ok_0.challenge@),
            r->Ok_0.rp_id@ == old(self).party(),
            ({
                let key = "reg:"@ + user_id@;
                &&& final(self).challenges().contains_key(key)
                &&& final(self).challenges()[key]@ == r->Ok_0.challenge@
                &&& final(self).challenges().remove(key) == old(self).challenges().remove(key)
            }),
    {
        let challenge = random_bytes();
        assert(is_chance(challenge@));
        Ok(self.issue_registration(user_id, challenge))
    }

    /// Puts out a challenge for a login with a credential of a name, in place of the one before.
    pub fn issue_authentication(&mut self, credential: String, challenge: Vec<u8>) -> (r: Result<Vec<u8>, WebAuthnError>)
        requires
            old(self).wf(),
        ensures
            final(self).wf(),
            final(self).party() == old(self).party(),
            challenged(old(self), final(self), credential@, r, challenge@),
    {
        let ghost before = self.challenges();
        let ghost key = credential@;
        if !self.challenges.contains_key(&credential) {
            return Err(WebAuthnError::CredentialNotRegistered);
        }
        let kept = copy_bytes(&challenge);
        let _ = self.challenges.insert(credential, kept);
        assert(self.challenges().remove(key) =~= before.remove(key));
        Ok(challenge)
    }

    /// Puts out a challenge by chance for a login with a credential.
    pub fn start_authentication(&mut self, credential_id: &[u8]) -> (r: Result<Vec<u8>, WebAuthnError>)
        requires
            old(self).wf(),
        ensures
            final(self).wf(),
            final(self).party() == old(self).party(),
            exists|challenge: Seq<u8>| challenge.len() == 32 && is_chance(challenge) && #[trigger]
                challenged(old(self), final(self), lossy_text(credential_id@), r, challenge),
            vstd::utf8::valid_utf8(credential_id@) ==> lossy_text(credential_id@) == vstd::utf8::decode_utf8(
                credential_id@,
            ),
    {
        let credential = text_of_bytes(credential_id);
        let challenge = random_bytes();
        let ghost c = challenge@;
        let r = self.issue_authentication(credential, challenge);
        assert(c.len() == 32 && is_chance(c) && challenged(old(self), self, lossy_text(credential_id@), r, c));
        r
    }
}

/// Whether a challenge was put out for a credential that is known, or was refused for one that is
/// not.
pub open spec fn challenged(
    from: &WebAuthnVerifier,
    to: &WebAuthnVerifier,
    credential: Seq<char>,
    r: Result<Vec<u8>, WebAuthnError>,
    challenge: Seq<u8>,
) -> bool {
    if from.challenges().contains_key(credential) {
        &&& r is Ok
        &&& r->Ok_0@ == challenge
        &&& to.challenges().contains_key(credential)
        &&& to.challenges()[credential]@ == challenge
        &&& to.challenges().remove(credential) == from.challenges().remove(credential)
    } else {
        &&& r == Err::<Vec<u8>, WebAuthnError>(WebAuthnError::CredentialNotRegistered)
        &&& to.challenges() == from.challenges()
    }
}

fn copy_bytes(bytes: &Vec<u8>) -> (r: Vec<u8>)
    ensures
        r@ == bytes@,
{
    let mut r: Vec<u8> = Vec::new();
    let mut i: usize = 0;
    while i < bytes.len()
        invariant
            i <= bytes@.len(),
            r@ == bytes@.take(i as int),
        decreases bytes.len() - i,
    {
        r.push(bytes[i]);
        assert(r@ =~= bytes@.take(i + 1));
        i = i + 1;
    }
    assert(bytes@.take(bytes@.len() as int) =~= bytes@);
    r
}

impl Default for WebAuthnVerifier {
    /// A verifier for this machine, without challenges.
    fn default() -> (r: Self)
        ensures
            r.wf(),
            r.challenges() == Map::<Seq<char>, Vec<u8>>::empty(),
            r.party() == "localhost"@,
    {
        Self::new()
    }
}

/// An assertion is accepted exactly if its credential is known and each of its parts is there.
pub proof fn law_assertion_needs_every_part(known: bool, authenticator_data: nat, client_data: nat, signature: nat)
    ensures
        assertion_outcome(known, authenticator_data, client_data, signature) == Ok::<bool, WebAuthnError>(true) <==> known
            && authenticator_data >= MIN_AUTHENTICATOR_DATA && client_data > 0 && signature > 0,
{
}

/// An assertion is accepted exactly if a challenge is out for its credential, there are at least 37 bytes
/// of authenticator data, some client data and some signature; without a signature it is not, and what
/// else is missing is refused by name, the credential first.
pub proof fn law_assertion(
    verifier: &WebAuthnVerifier,
    credential: &String,
    authenticator_data: &[u8],
    client_data: &[u8],
    signature: &[u8],
    r: Result<bool, WebAuthnError>,
)
    requires
        call_ensures(
            WebAuthnVerifier::check_assertion,
            (verifier, credential, authenticator_data, client_data, signature),
            r,
        ),
    ensures
        ({
            let known = verifier.challenges().contains_key(credential@);
            let enough = authenticator_data@.len() >= 37;
            let some = client_data@.len() > 0;
            &&& r is Ok <==> known && enough && some
            &&& r matches Ok(accepted) ==> (accepted <==> signature@.len() > 0)
            &&& !known ==> r == Err::<bool, WebAuthnError>(WebAuthnError::UnknownCredential)
            &&& known && !enough ==> r == Err::<bool, WebAuthnError>(WebAuthnError::ShortAuthenticatorData)
            &&& known && enough && !some ==> r == Err::<bool, WebAuthnError>(WebAuthnError::EmptyClientData)
        }),
{
}

/// The credential of an assertion is the text that its bytes encode, where they encode one.
pub proof fn law_assertion_on_bytes(
    verifier: &WebAuthnVerifier,
    credential: &String,
    id: &[u8],
    authenticator_data: &[u8],
    client_data: &[u8],
    signature: &[u8],
    named: Result<bool, WebAuthnError>,
    r: Result<bool, WebAuthnError>,
)
    requires
        id@ == vstd::utf8::encode_utf8(credential@),
        call_ensures(
            WebAuthnVerifier::check_assertion,
            (verifier, credential, authenticator_data, client_data, signature),
            named,
        ),
        call_ensures(WebAuthnVerifier::verify_assertion, (verifier, id, authenticator_data, client_data, signature), r),
    ensures
        r == named,
{
    vstd::utf8::encode_utf8_valid_utf8(credential@);
    vstd::utf8::encode_utf8_decode_utf8(credential@);
}

/// A challenge for a registration is the one that is out for the user from then on, under a name of its
/// own, and is for the party of the verifier; every other challenge stays.
pub proof fn law_registration_challenge(
    before: WebAuthnVerifier,
    after: WebAuthnVerifier,
    user_id: &str,
    challenge: Vec<u8>,
    r: RegistrationChallenge,
    other: Seq<char>,
)
    requires
        exists|verifier: &mut WebAuthnVerifier|
            *verifier == before && *final(verifier) == after && #[trigger] call_ensures(
                WebAuthnVerifier::issue_registration,
                (verifier, user_id, challenge),
                r,
            ),
        other != "reg:"@ + user_id@,
    ensures
        r.challenge@ == challenge@ && r.rp_id@ == before.party() && after.party() == before.party(),
        after.challenges().contains_key("reg:"@ + user_id@) && after.challenges()["reg:"@ + user_id@]@ == challenge@,
        after.challenges().contains_key(other) <==> before.challenges().contains_key(other),
        before.challenges().contains_key(other) ==> after.challenges()[other] == before.challenges()[other],
{
    let key = "reg:"@ + user_id@;
    assert(after.challenges().remove(key).contains_key(other) == before.challenges().remove(key).contains_key(other));
    assert(after.challenges().remove(key)[other] == before.challenges().remove(key)[other]);
}

/// A challenge for a login is put out exactly for a credential that one is out for already, in its place;
/// every other stays, and a refusal changes nothing.
pub proof fn law_login_challenge(
    before: WebAuthnVerifier,
    after: WebAuthnVerifier,
    credential: String,
    challenge: Vec<u8>,
    r: Result<Vec<u8>, WebAuthnError>,
    other: Seq<char>,
)
    requires
        exists|verifier: &mut WebAuthnVerifier|
            *verifier == before && *final(verifier) == after && #[trigger] call_ensures(
                WebAuthnVerifier::issue_authentication,
                (verifier, credential, challenge),
                r,
            ),
        other != credential@,
    ensures
        r is Ok <==> before.challenges().contains_key(credential@),
        r matches Ok(out) ==> out@ == challenge@ && after.challenges().contains_key(credential@)
            && after.challenges()[credential@]@ == challenge@,
        r matches Err(e) ==> e is CredentialNotRegistered && after.challenges() == before.challenges(),
        after.challenges().contains_key(other) <==> before.challenges().contains_key(other),
        before.challenges().contains_key(other) ==> after.challenges()[other] == before.challenges()[other],
        after.party() == before.party(),
{
    let key = credential@;
    if r is Ok {
        assert(after.challenges().remove(key).contains_key(other) == before.challenges().remove(key).contains_key(other));
        assert(after.challenges().remove(key)[other] == before.challenges().remove(key)[other]);
    }
}

/// A challenge that is drawn by chance has 32 bytes, and is put out as one that is given is.
pub proof fn law_drawn_challenges(
    before: WebAuthnVerifier,
    registered: WebAuthnVerifier,
    challenged_for: WebAuthnVerifier,
    user_id: &str,
    id: &[u8],
    credential: Seq<char>,
    made: Result<RegistrationChallenge, WebAuthnError>,
    r: Result<Vec<u8>, WebAuthnError>,
)
    requires
        exists|verifier: &mut WebAuthnVerifier|
            *verifier == before && *final(verifier) == registered && #[trigger] call_ensures(
                WebAuthnVerifier::start_registration,
                (verifier, user_id),
                made,
            ),
        exists|verifier: &mut WebAuthnVerifier|
            *verifier == before && *final(verifier) == challenged_for && #[trigger] call_ensures(
                WebAuthnVerifier::start_authentication,
                (verifier, id),
                r,
            ),
        id@ == vstd::utf8::encode_utf8(credential),
    ensures
        made matches Ok(c) && c.challenge@.len() == 32 && c.rp_id@ == before.party() && registered.challenges().contains_key(
            "reg:"@ + user_id@,
        ) && registered.challenges()["reg:"@ + user_id@]@ == c.challenge@,
        r is Ok <==> before.challenges().contains_key(credential),
        r matches Ok(c) ==> c@.len() == 32 && challenged_for.challenges().contains_key(credential)
            && challenged_for.challenges()[credential]@ == c@,
        r matches Err(e) ==> e is CredentialNotRegistered && challenged_for.challenges() == before.challenges(),
{
    vstd::utf8::encode_utf8_valid_utf8(credential);
    vstd::utf8::encode_utf8_decode_utf8(credential);
    let c = choose|c: Seq<u8>| c.len() == 32 && is_chance(c) && #[trigger] challenged(&before, &challenged_for, credential, r, c);
    assert(challenged(&before, &challenged_for, credential, r, c));
}

/// A new verifier has no challenge out, and is for the party that it was made for, or for this machine;
/// each failure has its own words.
pub proof fn law_new_verifier(
    made: WebAuthnVerifier,
    usual: WebAuthnVerifier,
    party: String,
    named: WebAuthnVerifier,
    a: &str,
    b: &str,
    c: &str,
    name: Seq<char>,
    e: WebAuthnError,
    text: &'static str,
)
    requires
        call_ensures(WebAuthnVerifier::new, (), made),
        call_ensures(WebAuthnVerifier::default, (), usual),
        call_ensures(WebAuthnVerifier::with_rp_id, (party,), named),
        call_ensures(WebAuthnVerifier::rp_id, (&made,), a),
        call_ensures(WebAuthnVerifier::rp_id, (&usual,), b),
        call_ensures(WebAuthnVerifier::rp_id, (&named,), c),
        call_ensures(WebAuthnError::message, (e,), text),
    ensures
        a@ == "localhost"@ && b@ == "localhost"@ && c@ == party@,
        !made.challenges().contains_key(name) && !usual.challenges().contains_key(name) && !named.challenges().contains_key(
            name,
        ),
        text@ == (match e {
            WebAuthnError::UnknownCredential => "unknown credential"@,
            WebAuthnError::ShortAuthenticatorData => "authenticator data too short (minimum 37 bytes)"@,
            WebAuthnError::EmptyClientData => "empty client data"@,
            WebAuthnError::CredentialNotRegistered => "credential not registered"@,
        }),
{
}

} // verus!
