//! What a username and a password have to look like.
use crate::error::{ErrorView, KirinoError};
use crate::text::chars_of;
use vstd::prelude::*;

verus! {

/// The fewest bytes of a password.
pub const MIN_PASSWORD_LEN: usize = 8;

/// The most bytes of a password.
pub const MAX_PASSWORD_LEN: usize = 128;

/// The fewest bytes of a username.
pub const MIN_USERNAME_LEN: usize = 2;

/// The most bytes of a username.
pub const MAX_USERNAME_LEN: usize = 64;

/// Whether a character is white space in the sense of Unicode.
pub open spec fn is_white(c: char) -> bool {
    ||| '\u{9}' <= c <= '\u{d}'
    ||| c == '\u{20}'
    ||| c == '\u{85}'
    ||| c == '\u{a0}'
    ||| c == '\u{1680}'
    ||| '\u{2000}' <= c <= '\u{200a}'
    ||| c == '\u{2028}'
    ||| c == '\u{2029}'
    ||| c == '\u{202f}'
    ||| c == '\u{205f}'
    ||| c == '\u{3000}'
}

/// A text without white space at its beginning.
pub open spec fn trimmed_start(s: Seq<char>) -> Seq<char>
    decreases s.len(),
{
    if s.len() > 0 && is_white(s[0]) {
        trimmed_start(s.skip(1))
    } else {
        s
    }
}

/// A text without white space at its end.
pub open spec fn trimmed_end(s: Seq<char>) -> Seq<char>
    decreases s.len(),
{
    if s.len() > 0 && is_white(s.last()) {
        trimmed_end(s.drop_last())
    } else {
        s
    }
}

/// A text without white space at either end.
pub open spec fn trimmed(s: Seq<char>) -> Seq<char> {
    trimmed_end(trimmed_start(s))
}

/// Whether a character may stand in a username: a letter or a digit of ASCII, an underscore, a
/// hyphen or a dot.
pub open spec fn is_name_char(c: char) -> bool {
    'a' <= c <= 'z' || 'A' <= c <= 'Z' || '0' <= c <= '9' || c == '_' || c == '-' || c == '.'
}

/// The number of bytes of a text.
pub open spec fn byte_len(s: Seq<char>) -> nat {
    vstd::utf8::encode_utf8(s).len()
}

/// What a username comes to.
pub open spec fn username_outcome(username: Seq<char>) -> Result<Seq<char>, ErrorView> {
    let name = trimmed(username);
    if byte_len(name) < MIN_USERNAME_LEN {
        Err(ErrorView::Validation("username must be at least 2 characters"@))
    } else if byte_len(name) > MAX_USERNAME_LEN {
        Err(ErrorView::Validation("username must be at most 64 characters"@))
    } else if exists|i: int| 0 <= i < name.len() && !is_name_char(#[trigger] name[i]) {
        Err(
            ErrorView::Validation(
                "username may only contain alphanumeric characters, underscores, hyphens, and dots"@,
            ),
        )
    } else {
        Ok(name)
    }
}

fn white(c: char) -> (r: bool)
    ensures
        r == is_white(c),
{
    ('\u{9}' <= c && c <= '\u{d}') || c == '\u{20}' || c == '\u{85}' || c == '\u{a0}' || c == '\u{1680}' || ('\u{2000}' <= c
        && c <= '\u{200a}') || c == '\u{2028}' || c == '\u{2029}' || c == '\u{202f}' || c == '\u{205f}' || c == '\u{3000}'
}

fn name_char(c: char) -> (r: bool)
    ensures
        r == is_name_char(c),
{
    ('a' <= c && c <= 'z') || ('A' <= c && c <= 'Z') || ('0' <= c && c <= '9') || c == '_' || c == '-' || c == '.'
}

/// A text without white space at either end.
pub fn trim(s: &str) -> (r: String)
    ensures
        r@ == trimmed(s@),
{
    let chars = chars_of(s);
    let mut from: usize = 0;
    assert(s@.skip(0) =~= s@);
    while from < chars.len() && white(chars[from])
        invariant
            chars@ == s@,
            from <= chars@.len(),
            trimmed_start(s@) == trimmed_start(s@.skip(from as int)),
        decreases chars.len() - from,
    {
        assert(s@.skip(from as int).skip(1) =~= s@.skip(from + 1));
        assert(s@.skip(from as int)[0] == s@[from as int]);
        from = from + 1;
    }
    let ghost start = s@.skip(from as int);
    assert(start.len() > 0 ==> start[0] == s@[from as int]);
    assert(trimmed_start(s@) == start);
    let mut to: usize = chars.len();
    assert(start.take(start.len() as int) =~= start);
    while to > from && white(chars[to - 1])
        invariant
            chars@ == s@,
            from <= to <= chars@.len(),
            start == s@.skip(from as int),
            trimmed_end(start) == trimmed_end(start.take(to - from)),
        decreases to,
    {
        assert(start.take(to - from).last() == s@[to - 1]);
        assert(start.take(to - from).drop_last() =~= start.take(to - 1 - from));
        to = to - 1;
    }
    let ghost kept = start.take(to - from);
    assert(to > from ==> kept.last() == s@[to - 1]);
    let mut r = String::new();
    let mut i: usize = from;
    while i < to
        invariant
            chars@ == s@,
            from <= i <= to <= chars@.len(),
            start == s@.skip(from as int),
            r@ == start.take(i - from),
        decreases to - i,
    {
        r.push(chars[i]);
        assert(r@ =~= start.take(i + 1 - from));
        i = i + 1;
    }
    r
}

/// The canonical form of a username.
pub fn validate_username(username: &str) -> (r: Result<String, KirinoError>)
    ensures
        match r {
            Ok(name) => username_outcome(username@) == Ok::<Seq<char>, ErrorView>(name@),
            Err(e) => username_outcome(username@) == Err::<Seq<char>, ErrorView>(e@),
        },
{
    let name = trim(username);
    let len: usize = name.as_str().as_bytes().len();
    if len < MIN_USERNAME_LEN {
        return Err(KirinoError::Validation("username must be at least 2 characters".to_owned()));
    }
    if len > MAX_USERNAME_LEN {
        return Err(KirinoError::Validation("username must be at most 64 characters".to_owned()));
    }
    let chars = chars_of(name.as_str());
    let mut i: usize = 0;
    while i < chars.len()
        invariant
            chars@ == name@,
            name@ == trimmed(username@),
            byte_len(name@) >= MIN_USERNAME_LEN,
            byte_len(name@) <= MAX_USERNAME_LEN,
            i <= chars@.len(),
            forall|j: int| 0 <= j < i ==> is_name_char(#[trigger] chars@[j]),
        decreases chars.len() - i,
    {
        if !name_char(chars[i]) {
            assert(!is_name_char(name@[i as int]));
            return Err(
                KirinoError::Validation(
                    "username may only contain alphanumeric characters, underscores, hyphens, and dots".to_owned(),
                ),
            );
        }
        i = i + 1;
    }
    Ok(name)
}

proof fn lemma_trimmed_fixed(s: Seq<char>)
    requires
        s.len() > 0 ==> !is_white(s[0]) && !is_white(s.last()),
    ensures
        trimmed(s) == s,
{
}

proof fn lemma_ends(s: Seq<char>)
    ensures
        trimmed_end(s).len() > 0 ==> trimmed_end(s)[0] == s[0] && !is_white(trimmed_end(s).last()),
    decreases s.len(),
{
    if s.len() > 0 && is_white(s.last()) {
        lemma_ends(s.drop_last());
    }
}

proof fn lemma_starts(s: Seq<char>)
    ensures
        trimmed_start(s).len() > 0 ==> !is_white(trimmed_start(s)[0]),
    decreases s.len(),
{
    if s.len() > 0 && is_white(s[0]) {
        lemma_starts(s.skip(1));
    }
}

/// A canonical username is its own canonical form.
pub proof fn law_canonical_username_is_stable(username: Seq<char>)
    requires
        username_outcome(username) is Ok,
    ensures
        username_outcome(username_outcome(username)->Ok_0) == username_outcome(username),
{
    let start = trimmed_start(username);
    lemma_starts(username);
    lemma_ends(start);
    lemma_trimmed_fixed(trimmed(username));
}

/// A canonical username holds only the characters that are let through.
pub proof fn law_canonical_username_is_clean(username: Seq<char>, i: int)
    requires
        username_outcome(username) is Ok,
        0 <= i < username_outcome(username)->Ok_0.len(),
    ensures
        is_name_char(username_outcome(username)->Ok_0[i]),
        !is_white(username_outcome(username)->Ok_0[i]),
{
}

/// Whether a character is an uppercase letter in the sense of Unicode.
pub uninterp spec fn is_upper(c: char) -> bool;

/// Whether a character is a lowercase letter in the sense of Unicode.
pub uninterp spec fn is_lower(c: char) -> bool;

/// Whether a character is a letter or a number in the sense of Unicode.
pub uninterp spec fn is_letter_or_number(c: char) -> bool;

/// `char::is_uppercase`. The answer depends on the character alone.
#[verifier::external_body]
fn upper(c: char) -> (r: bool)
    ensures
        r == is_upper(c),
{
    c.is_uppercase()
}

/// `char::is_lowercase`. The answer depends on the character alone.
#[verifier::external_body]
fn lower(c: char) -> (r: bool)
    ensures
        r == is_lower(c),
{
    c.is_lowercase()
}

/// `char::is_alphanumeric`. The answer depends on the character alone.
#[verifier::external_body]
fn letter_or_number(c: char) -> (r: bool)
    ensures
        r == is_letter_or_number(c),
{
    c.is_alphanumeric()
}

/// Which kinds of characters a password has.
#[derive(Debug, Clone, Copy, PartialEq, Eq, Structural)]
pub struct PasswordShape {
    /// Bytes.
    pub bytes: usize,
    /// An uppercase letter.
    pub has_uppercase: bool,
    /// A lowercase letter.
    pub has_lowercase: bool,
    /// A digit of ASCII.
    pub has_digit: bool,
    /// Something that is neither letter nor number.
    pub has_special: bool,
}

impl PasswordShape {
    /// How many kinds of characters there are.
    pub open spec fn kinds(self) -> int {
        (if self.has_uppercase {
            1int
        } else {
            0
        }) + (if self.has_lowercase {
            1int
        } else {
            0
        }) + (if self.has_digit {
            1int
        } else {
            0
        }) + (if self.has_special {
            1int
        } else {
            0
        })
    }

    /// What a password of this shape comes to.
    pub open spec fn outcome(self) -> Result<(), ErrorView> {
        if self.bytes < MIN_PASSWORD_LEN {
            Err(ErrorView::Validation("password must be at least 8 characters"@))
        } else if self.bytes > MAX_PASSWORD_LEN {
            Err(ErrorView::Validation("password must be at most 128 characters"@))
        } else if self.kinds() < 3 {
            Err(
                ErrorView::Validation(
                    "password must contain at least 3 of: uppercase, lowercase, digit, special character"@,
                ),
            )
        } else {
            Ok(())
        }
    }

    /// Whether a password of this shape is accepted.
    pub fn check(&self) -> (r: Result<(), KirinoError>)
        ensures
            match r {
                Ok(()) => self.outcome() == Ok::<(), ErrorView>(()),
                Err(e) => self.outcome() == Err::<(), ErrorView>(e@),
            },
    {
        if self.bytes < MIN_PASSWORD_LEN {
            return Err(KirinoError::Validation("password must be at least 8 characters".to_owned()));
        }
        if self.bytes > MAX_PASSWORD_LEN {
            return Err(KirinoError::Validation("password must be at most 128 characters".to_owned()));
        }
        let mut kinds: u8 = 0;
        if self.has_uppercase {
            kinds = kinds + 1;
        }
        if self.has_lowercase {
            kinds = kinds + 1;
        }
        if self.has_digit {
            kinds = kinds + 1;
        }
        if self.has_special {
            kinds = kinds + 1;
        }
        if kinds < 3 {
            return Err(
                KirinoError::Validation(
                    "password must contain at least 3 of: uppercase, lowercase, digit, special character".to_owned(),
                ),
            );
        }
        Ok(())
    }
}

/// The shape of a password.
pub open spec fn shape_of(password: Seq<char>) -> PasswordShape {
    PasswordShape {
        bytes: byte_len(password) as usize,
        has_uppercase: exists|i: int| 0 <= i < password.len() && is_upper(#[trigger] password[i]),
        has_lowercase: exists|i: int| 0 <= i < password.len() && is_lower(#[trigger] password[i]),
        has_digit: exists|i: int| 0 <= i < password.len() && '0' <= (#[trigger] password[i]) <= '9',
        has_special: exists|i: int| 0 <= i < password.len() && !is_letter_or_number(#[trigger] password[i]),
    }
}

/// The shape of a password.
pub fn password_shape(password: &str) -> (r: PasswordShape)
    ensures
        r == shape_of(password@),
        r.bytes == byte_len(password@),
{
    let bytes: usize = password.as_bytes().len();
    let chars = chars_of(password);
    let mut r = PasswordShape {
        bytes,
        has_uppercase: false,
        has_lowercase: false,
        has_digit: false,
        has_special: false,
    };
    let mut i: usize = 0;
    while i < chars.len()
        invariant
            chars@ == password@,
            i <= chars@.len(),
            r.bytes == bytes,
            r.has_uppercase == exists|j: int| 0 <= j < i && is_upper(#[trigger] password@[j]),
            r.has_lowercase == exists|j: int| 0 <= j < i && is_lower(#[trigger] password@[j]),
            r.has_digit == exists|j: int| 0 <= j < i && '0' <= (#[trigger] password@[j]) <= '9',
            r.has_special == exists|j: int| 0 <= j < i && !is_letter_or_number(#[trigger] password@[j]),
        decreases chars.len() - i,
    {
        let c = chars[i];
        assert(c == password@[i as int]);
        if upper(c) {
            r.has_uppercase = true;
        }
        if lower(c) {
            r.has_lowercase = true;
        }
        if '0' <= c && c <= '9' {
            r.has_digit = true;
        }
        if !letter_or_number(c) {
            r.has_special = true;
        }
        i = i + 1;
    }
    r
}

/// Whether a password is accepted: from 8 to 128 bytes, with at least three of uppercase,
/// lowercase, digit and special character.
pub fn validate_password(password: &str) -> (r: Result<(), KirinoError>)
    ensures
        byte_len(password@) <= usize::MAX,
        match r {
            Ok(()) => shape_of(password@).outcome() == Ok::<(), ErrorView>(()),
            Err(e) => shape_of(password@).outcome() == Err::<(), ErrorView>(e@),
        },
{
    let shape = password_shape(password);
    shape.check()
}

/// With one kind of characters more, or with as many bytes as are allowed, an accepted password
/// stays accepted.
pub proof fn law_more_kinds_are_accepted(a: PasswordShape, b: PasswordShape)
    requires
        a.outcome() is Ok,
        a.has_uppercase ==> b.has_uppercase,
        a.has_lowercase ==> b.has_lowercase,
        a.has_digit ==> b.has_digit,
        a.has_special ==> b.has_special,
        MIN_PASSWORD_LEN <= b.bytes <= MAX_PASSWORD_LEN,
    ensures
        b.outcome() is Ok,
{
}

/// White space is what Unicode calls so.
pub proof fn law_white_space(c: char)
    ensures
        is_white(c) <==> {
            let n = c as int;
            ||| 0x9 <= n <= 0xd
            ||| n == 0x20 || n == 0x85 || n == 0xa0 || n == 0x1680
            ||| 0x2000 <= n <= 0x200a
            ||| n == 0x2028 || n == 0x2029 || n == 0x202f || n == 0x205f || n == 0x3000
        },
{
}

proof fn lemma_start_cut(s: Seq<char>) -> (i: int)
    ensures
        0 <= i <= s.len(),
        trimmed_start(s) == s.skip(i),
        forall|j: int| 0 <= j < i ==> is_white(#[trigger] s[j]),
        i < s.len() ==> !is_white(s[i]),
    decreases s.len(),
{
    if s.len() > 0 && is_white(s[0]) {
        let i = lemma_start_cut(s.skip(1));
        assert(s.skip(1).skip(i) =~= s.skip(i + 1));
        assert forall|j: int| 0 <= j < i + 1 implies is_white(#[trigger] s[j]) by {
            if j > 0 {
                assert(s.skip(1)[j - 1] == s[j]);
            }
        }
        if i + 1 < s.len() {
            assert(s.skip(1)[i] == s[i + 1]);
        }
        i + 1
    } else {
        assert(s.skip(0) =~= s);
        0
    }
}

proof fn lemma_end_cut(s: Seq<char>) -> (i: int)
    ensures
        0 <= i <= s.len(),
        trimmed_end(s) == s.take(i),
        forall|j: int| i <= j < s.len() ==> is_white(#[trigger] s[j]),
        i > 0 ==> !is_white(s[i - 1]),
    decreases s.len(),
{
    if s.len() > 0 && is_white(s.last()) {
        let i = lemma_end_cut(s.drop_last());
        assert(s.drop_last().take(i) =~= s.take(i));
        assert forall|j: int| i <= j < s.len() implies is_white(#[trigger] s[j]) by {
            if j < s.len() - 1 {
                assert(s.drop_last()[j] == s[j]);
            }
        }
        if i > 0 {
            assert(s.drop_last()[i - 1] == s[i - 1]);
        }
        i
    } else {
        assert(s.take(s.len() as int) =~= s);
        s.len() as int
    }
}

/// What is left of a text is the part of it between the white space at its ends: it neither begins nor
/// ends with any, and nothing else is taken away.
pub proof fn law_trimmed_text(s: &str, r: String)
    requires
        call_ensures(trim, (s,), r),
    ensures
        r@.len() > 0 ==> !is_white(r@[0]) && !is_white(r@.last()),
        exists|i: int, j: int|
            {
                &&& 0 <= i <= j <= s@.len()
                &&& r@ == #[trigger] s@.subrange(i, j)
                &&& forall|k: int| 0 <= k < s@.len() && !(i <= k < j) ==> is_white(#[trigger] s@[k])
            },
{
    let i = lemma_start_cut(s@);
    let start = s@.skip(i);
    let n = lemma_end_cut(start);
    assert(r@ =~= s@.subrange(i, i + n));
    assert forall|k: int| 0 <= k < s@.len() && !(i <= k < i + n) implies is_white(#[trigger] s@[k]) by {
        if k >= i {
            assert(start[k - i] == s@[k]);
        }
    }
    if n > 0 {
        assert(r@[0] == s@[i]);
        assert(r@.last() == start[n - 1]);
    }
}

/// Whether a character is one of the letters and digits of ASCII, an underscore, a hyphen or a dot.
pub open spec fn is_plain(c: char) -> bool {
    let n = c as int;
    0x61 <= n <= 0x7a || 0x41 <= n <= 0x5a || 0x30 <= n <= 0x39 || n == 0x5f || n == 0x2d || n == 0x2e
}

/// A username is accepted exactly if, without the white space around it, it has from 2 to 64 bytes and
/// only letters and digits of ASCII, underscores, hyphens and dots; that is then its form.
pub proof fn law_accepted_usernames(username: &str, name: String, r: Result<String, KirinoError>)
    requires
        call_ensures(trim, (username,), name),
        call_ensures(validate_username, (username,), r),
    ensures
        r is Ok <==> 2 <= vstd::utf8::encode_utf8(name@).len() <= 64 && forall|i: int|
            0 <= i < name@.len() ==> is_plain(#[trigger] name@[i]),
        r matches Ok(accepted) ==> accepted@ == name@,
        r matches Err(e) ==> e@ is Validation,
{
    assert forall|i: int| 0 <= i < name@.len() implies is_plain(#[trigger] name@[i]) == is_name_char(name@[i]) by {}
    if r is Ok {
        assert forall|i: int| 0 <= i < name@.len() implies is_plain(#[trigger] name@[i]) by {
            assert(is_name_char(name@[i]));
        }
    }
    if exists|i: int| 0 <= i < name@.len() && !is_name_char(#[trigger] name@[i]) {
        let i = choose|i: int| 0 <= i < name@.len() && !is_name_char(#[trigger] name@[i]);
        assert(!is_plain(name@[i]));
    }
}

/// A password is accepted exactly if it has from 8 to 128 bytes, and at most one of the four kinds of
/// characters is missing from it.
pub proof fn law_accepted_passwords(password: &str, shape: PasswordShape, r: Result<(), KirinoError>, checked: Result<(), KirinoError>)
    requires
        call_ensures(password_shape, (password,), shape),
        call_ensures(PasswordShape::check, (&shape,), checked),
        call_ensures(validate_password, (password,), r),
    ensures
        ({
            let bytes = vstd::utf8::encode_utf8(password@).len();
            let upper = exists|i: int| 0 <= i < password@.len() && is_upper(#[trigger] password@[i]);
            let lower = exists|i: int| 0 <= i < password@.len() && is_lower(#[trigger] password@[i]);
            let digit = exists|i: int| 0 <= i < password@.len() && 0x30 <= (#[trigger] password@[i]) as int <= 0x39;
            let special = exists|i: int| 0 <= i < password@.len() && !is_letter_or_number(#[trigger] password@[i]);
            &&& r is Ok <==> {
                &&& 8 <= bytes <= 128
                &&& (upper || lower) && (upper || digit) && (upper || special)
                &&& (lower || digit) && (lower || special) && (digit || special)
            }
            &&& shape.bytes == bytes && shape.has_uppercase == upper && shape.has_lowercase == lower
            &&& shape.has_digit == digit && shape.has_special == special
        }),
        checked is Ok <==> r is Ok,
        r matches Err(e) ==> e@ is Validation,
{
    let digit = exists|i: int| 0 <= i < password@.len() && 0x30 <= (#[trigger] password@[i]) as int <= 0x39;
    if shape.has_digit {
        let i = choose|i: int| 0 <= i < password@.len() && '0' <= (#[trigger] password@[i]) <= '9';
        assert(0x30 <= password@[i] as int <= 0x39);
    }
    if digit {
        let i = choose|i: int| 0 <= i < password@.len() && 0x30 <= (#[trigger] password@[i]) as int <= 0x39;
        assert('0' <= password@[i] <= '9');
    }
}

/// A refused name or password says what is wrong with it: too short, too long, a character that is not let
/// through, or too few kinds of them, in this order.
pub proof fn law_refusals_of_form(
    username: &str,
    name: String,
    password: &str,
    shape: PasswordShape,
    a: Result<String, KirinoError>,
    b: Result<(), KirinoError>,
)
    requires
        call_ensures(trim, (username,), name),
        call_ensures(validate_username, (username,), a),
        call_ensures(password_shape, (password,), shape),
        call_ensures(validate_password, (password,), b),
    ensures
        ({
            let n = vstd::utf8::encode_utf8(name@).len();
            &&& n < 2 ==> (a matches Err(e) && e@ == ErrorView::Validation("username must be at least 2 characters"@))
            &&& n > 64 ==> (a matches Err(e) && e@ == ErrorView::Validation("username must be at most 64 characters"@))
            &&& 2 <= n <= 64 ==> (a matches Err(e) ==> e@ == ErrorView::Validation(
                "username may only contain alphanumeric characters, underscores, hyphens, and dots"@,
            ))
        }),
        shape.bytes < 8 ==> (b matches Err(e) && e@ == ErrorView::Validation("password must be at least 8 characters"@)),
        shape.bytes > 128 ==> (b matches Err(e) && e@ == ErrorView::Validation(
            "password must be at most 128 characters"@,
        )),
        8 <= shape.bytes <= 128 ==> (b matches Err(e) ==> e@ == ErrorView::Validation(
            "password must contain at least 3 of: uppercase, lowercase, digit, special character"@,
        )),
{
}

} // verus!
