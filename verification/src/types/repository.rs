use vstd::prelude::*;

use crate::parser;
use crate::parser::strings_view;
use crate::text::option_str_view;

verus! {

/// A repository as the update pipeline uses it: the key that signs it is a
/// path, empty when the sources list names none.
#[derive(Debug, PartialEq, Clone)]
pub struct Repository {
    pub(crate) uris: Vec<String>,
    pub(crate) suites: Vec<String>,
    pub(crate) components: Vec<String>,
    pub(crate) signed_by: String,
}

/// What a [`Repository`] holds, as character sequences.
pub struct RepositoryView {
    pub uris: Seq<Seq<char>>,
    pub suites: Seq<Seq<char>>,
    pub components: Seq<Seq<char>>,
    pub signed_by: Seq<char>,
}

impl View for Repository {
    type V = RepositoryView;

    closed spec fn view(&self) -> RepositoryView {
        RepositoryView {
            uris: strings_view(self.uris@),
            suites: strings_view(self.suites@),
            components: strings_view(self.components@),
            signed_by: self.signed_by@,
        }
    }
}

pub open spec fn first_of(v: Seq<Seq<char>>) -> Option<Seq<char>> {
    if v.len() > 0 {
        Some(v[0])
    } else {
        None
    }
}

impl Repository {
    pub fn new() -> (r: Self)
        ensures
            r@.uris.len() == 0,
            r@.suites.len() == 0,
            r@.components.len() == 0,
            r@.signed_by.len() == 0,
    {
        Repository {
            uris: Vec::new(),
            suites: Vec::new(),
            components: Vec::new(),
            signed_by: String::new(),
        }
    }

    /// The repository of a parsed sources entry; a missing `Signed-By`
    /// becomes the empty path.
    pub fn from_parsed(r: parser::Repository) -> (res: Self)
        ensures
            res@.uris == r@.uris,
            res@.suites == r@.suites,
            res@.components == r@.components,
            res@.signed_by == match r@.signed_by {
                Some(k) => k,
                None => Seq::<char>::empty(),
            },
    {
        let signed_by = match r.signed_by {
            Some(k) => k,
            None => String::new(),
        };
        Repository { uris: r.uris, suites: r.suites, components: r.components, signed_by }
    }

    /// The first component.
    pub fn component(&self) -> (res: Option<&str>)
        ensures
            option_str_view(res) == first_of(self@.components),
    {
        if self.components.len() > 0 {
            Some(self.components[0].as_str())
        } else {
            None
        }
    }

    /// The path of the key that signs the repository.
    pub fn signed_by(&self) -> (res: &str)
        ensures
            res@ == self@.signed_by,
    {
        self.signed_by.as_str()
    }

    /// The mirrors of the repository, in order.
    pub fn urls(&self) -> (res: &[String])
        ensures
            strings_view(res@) == self@.uris,
    {
        self.uris.as_slice()
    }

    /// The first suite.
    pub fn suite(&self) -> (res: Option<&str>)
        ensures
            option_str_view(res) == first_of(self@.suites),
    {
        if self.suites.len() > 0 {
            Some(self.suites[0].as_str())
        } else {
            None
        }
    }

    pub fn is_valid(&self) -> (res: bool)
        ensures
            res == (self@.uris.len() > 0 && self@.suites.len() > 0 && self@.components.len() > 0),
    {
        !self.uris.is_empty() && !self.suites.is_empty() && !self.components.is_empty()
    }
}

} // verus!
