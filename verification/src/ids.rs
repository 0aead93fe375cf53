//! 128-bit identifiers and their text.
use vstd::prelude::*;

verus! {

/// The hexadecimal digit of an identifier that stands at a place, the first being the highest.
pub open spec fn uuid_digit(id: u128, k: int) -> char {
    crate::text::hex_digit(((id as int / vstd::arithmetic::power::pow(16, (31 - k) as nat)) % 16) as nat)
}

/// The hyphenated text of an identifier: 32 lower-case hexadecimal digits in groups of 8, 4, 4, 4
/// and 12.
pub open spec fn uuid_text(id: u128) -> Seq<char> {
    Seq::new(
        36,
        |i: int|
            if i == 8 || i == 13 || i == 18 || i == 23 {
                '-'
            } else if i < 8 {
                uuid_digit(id, i)
            } else if i < 13 {
                uuid_digit(id, i - 1)
            } else if i < 18 {
                uuid_digit(id, i - 2)
            } else if i < 23 {
                uuid_digit(id, i - 3)
            } else {
                uuid_digit(id, i - 4)
            },
    )
}

/// The identifier that a text stands for, or the message that says why there is none.
pub uninterp spec fn uuid_read(s: Seq<char>) -> Result<u128, Seq<char>>;

/// What was read, with the message as characters.
pub open spec fn read_shown(r: Result<u128, String>) -> Result<u128, Seq<char>> {
    match r {
        Ok(id) => Ok(id),
        Err(e) => Err(e@),
    }
}

/// Whether an identifier was read.
pub open spec fn is_read_as(r: Result<u128, String>, id: u128) -> bool {
    r matches Ok(read) && read == id
}

/// `uuid::Uuid::to_string`: the hyphenated text in lower case.
#[verifier::external_body]
pub(crate) fn show_uuid(id: u128) -> (r: String)
    ensures
        r@ == uuid_text(id),
{
    uuid::Uuid::from_u128(id).to_string()
}

/// `uuid::Uuid::parse_str`: what it reads, or its error's text, depends on the text alone, and
/// the hyphenated text of an identifier reads as that identifier.
#[verifier::external_body]
pub(crate) fn parse_uuid(s: &str) -> (r: Result<u128, String>)
    ensures
        read_shown(r) == uuid_read(s@),
        forall|id: u128| s@ == #[trigger] uuid_text(id) ==> is_read_as(r, id),
{
    match uuid::Uuid::parse_str(s) {
        Ok(u) => Ok(u.as_u128()),
        Err(e) => Err(e.to_string()),
    }
}

/// `uuid::Uuid::now_v7`: a new identifier, which depends on the time and on chance. Nothing is
/// claimed of it.
#[verifier::external_body]
fn fresh_uuid() -> (id: u128) {
    uuid::Uuid::now_v7().as_u128()
}

/// Whether an identifier can be drawn.
pub closed spec fn is_drawn(id: u128) -> bool {
    call_ensures(fresh_uuid, (), id)
}

/// A new identifier.
pub(crate) fn draw_id() -> (id: u128)
    ensures
        is_drawn(id),
{
    fresh_uuid()
}

} // verus!
