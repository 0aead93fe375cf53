//! A subject whose identity is an arbitrary text.
use crate::collections::Key;
use crate::error::KirinoError;
use crate::rbac::traits::Subject;
use vstd::prelude::*;

verus! {

/// A subject keyed by a text, which is taken as it is.
#[derive(Debug)]
pub struct StringSubject(String);

impl StringSubject {
    /// The subject of an id; nothing is checked or trimmed.
    pub fn new(id: &str) -> (r: Self)
        ensures
            r.id_text() == id@,
    {
        StringSubject(id.to_owned())
    }

    /// The id as text.
    pub fn text(&self) -> (r: String)
        ensures
            r@ == self.id_text(),
    {
        self.0.clone()
    }
}

impl Key for StringSubject {
    type Id = Seq<char>;

    closed spec fn id(&self) -> Seq<char> {
        self.0@
    }

    fn same(&self, other: &Self) -> (r: bool) {
        self.0 == other.0
    }

    fn duplicate(&self) -> (r: Self) {
        StringSubject(self.0.clone())
    }
}

impl Subject for StringSubject {
    closed spec fn id_text(&self) -> Seq<char> {
        self.0@
    }

    open spec fn type_text(&self) -> Seq<char> {
        "user"@
    }

    fn subject_id(&self) -> (r: &str) {
        self.0.as_str()
    }

    fn subject_type(&self) -> (r: &'static str) {
        "user"
    }

    fn from_subject_id(id: &str) -> (r: Self)
        ensures
            r.id_text() == id@,
    {
        StringSubject::new(id)
    }

    fn try_from_subject_id(id: &str) -> (r: Result<Self, KirinoError>)
        ensures
            r matches Ok(s) && s.id_text() == id@,
    {
        Ok(StringSubject::new(id))
    }
}

/// A text names one subject of the kind of a person, which gives the text back unchanged; different
/// texts name different subjects.
pub proof fn law_text_names_a_subject(
    id: &str,
    other: &str,
    made: StringSubject,
    second: StringSubject,
    read: StringSubject,
    tried: Result<StringSubject, KirinoError>,
    shown: &str,
    again: &str,
    text: String,
    kind: &'static str,
    same: bool,
)
    requires
        call_ensures(StringSubject::new, (id,), made),
        call_ensures(StringSubject::new, (other,), second),
        call_ensures(StringSubject::from_subject_id, (id,), read),
        call_ensures(StringSubject::try_from_subject_id, (id,), tried),
        call_ensures(StringSubject::subject_id, (&made,), shown),
        call_ensures(StringSubject::subject_id, (&read,), again),
        call_ensures(StringSubject::text, (&made,), text),
        call_ensures(StringSubject::subject_type, (&made,), kind),
        call_ensures(StringSubject::same, (&made, &second), same),
    ensures
        shown@ == id@ && again@ == id@ && text@ == id@,
        tried matches Ok(s) && s.id_text() == id@,
        kind@ == "user"@,
        same <==> id@ == other@,
{
}

} // verus!
