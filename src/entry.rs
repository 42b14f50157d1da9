//! One translatable unit of a catalog, and its mathematical model.

use vstd::prelude::*;

verus! {

/// What `str::trim` makes of a string: the characters without leading and
/// trailing white space.
pub uninterp spec fn trimmed(s: Seq<char>) -> Seq<char>;

/// Relies on `str::trim`: the result is a function of the characters alone.
#[verifier::external_body]
fn trim<'a>(s: &'a str) -> (r: &'a str)
    ensures
        r@ == trimmed(s@),
{
    s.trim()
}

/// A translation that holds nothing but white space.
pub open spec fn is_blank(t: Seq<char>) -> bool {
    trimmed(t).len() == 0
}

/// The model of an optional string.
pub open spec fn opt_view(o: Option<String>) -> Option<Seq<char>> {
    match o {
        Some(s) => Some(s@),
        None => None,
    }
}

/// The model of an entry: its key (msgid), its context (msgctxt) and its
/// translation (msgstr).
pub struct EntryView {
    pub key: Seq<char>,
    pub context: Option<Seq<char>>,
    pub translation: Option<Seq<char>>,
}

impl EntryView {
    /// The header entry carries metadata and has an empty key.
    pub open spec fn is_header(self) -> bool {
        self.key.len() == 0
    }

    /// No translation, or one of white space only.
    pub open spec fn is_untranslated(self) -> bool {
        match self.translation {
            Some(t) => is_blank(t),
            None => true,
        }
    }

    /// A translation unit whose translation holds more than white space.
    pub open spec fn is_completed(self) -> bool {
        !self.is_header() && !self.is_untranslated()
    }

    /// Two entries stand for the same unit when key and context agree.
    pub open spec fn same_unit(self, other: EntryView) -> bool {
        self.key == other.key && self.context == other.context
    }

    pub open spec fn with_translation(self, t: Option<Seq<char>>) -> EntryView {
        EntryView { translation: t, ..self }
    }
}

/// One entry of a catalog.
#[derive(Clone, Debug, PartialEq, Eq)]
pub struct Entry {
    pub key: String,
    pub context: Option<String>,
    pub translation: Option<String>,
}

impl View for Entry {
    type V = EntryView;

    open spec fn view(&self) -> EntryView {
        EntryView {
            key: self.key@,
            context: opt_view(self.context),
            translation: opt_view(self.translation),
        }
    }
}

/// A copy of an optional string.
pub fn copy_opt(o: &Option<String>) -> (r: Option<String>)
    ensures
        opt_view(r) == opt_view(*o),
{
    match o {
        Some(s) => Some(s.clone()),
        None => None,
    }
}

fn opt_eq(a: &Option<String>, b: &Option<String>) -> (r: bool)
    ensures
        r == (opt_view(*a) == opt_view(*b)),
{
    match (a, b) {
        (Some(x), Some(y)) => *x == *y,
        (None, None) => true,
        _ => false,
    }
}

impl Entry {
    pub fn new(key: String, context: Option<String>, translation: Option<String>) -> (r: Entry)
        ensures
            r@.key == key@,
            r@.context == opt_view(context),
            r@.translation == opt_view(translation),
    {
        Entry { key, context, translation }
    }

    /// A copy with the same key, context and translation.
    pub fn duplicate(&self) -> (r: Entry)
        ensures
            r@ == self@,
    {
        Entry {
            key: self.key.clone(),
            context: copy_opt(&self.context),
            translation: copy_opt(&self.translation),
        }
    }

    pub fn is_header(&self) -> (r: bool)
        ensures
            r == self@.is_header(),
    {
        self.key.as_str().is_empty()
    }

    pub fn is_untranslated(&self) -> (r: bool)
        ensures
            r == self@.is_untranslated(),
    {
        match &self.translation {
            Some(t) => trim(t.as_str()).is_empty(),
            None => true,
        }
    }

    pub fn is_completed(&self) -> (r: bool)
        ensures
            r == self@.is_completed(),
    {
        !self.is_header() && !self.is_untranslated()
    }

    pub fn same_unit(&self, other: &Entry) -> (r: bool)
        ensures
            r == self@.same_unit(other@),
    {
        self.key == other.key && opt_eq(&self.context, &other.context)
    }
}

} // verus!
