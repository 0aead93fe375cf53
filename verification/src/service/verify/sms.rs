//! Codes by text message.
use vstd::prelude::*;

verus! {

/// Who sends codes by text message.
pub struct SmsVerifier {
    sender: String,
}

impl SmsVerifier {
    /// The name of the sender.
    pub closed spec fn sender_text(&self) -> Seq<char> {
        self.sender@
    }

    /// A verifier with the name of a sender.
    #[must_use]
    pub fn new(sender: String) -> (r: Self)
        ensures
            r.sender_text() == sender@,
    {
        SmsVerifier { sender }
    }

    /// The name of the sender.
    pub fn sender(&self) -> (r: &str)
        ensures
            r@ == self.sender_text(),
    {
        self.sender.as_str()
    }
}

/// The name of the sender is that which the verifier was made with.
pub proof fn law_sender_is_kept(sender: String, made: SmsVerifier, r: &str)
    requires
        call_ensures(SmsVerifier::new, (sender,), made),
        call_ensures(SmsVerifier::sender, (&made,), r),
    ensures
        r@ == sender@,
{
}

} // verus!
