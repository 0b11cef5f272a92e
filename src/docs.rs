use vstd::prelude::*;
use crate::input::Db;

verus! {

/// Holds documentation.
#[derive(Debug, Clone)]
pub struct Documentation(String);

impl View for Documentation {
    type V = Seq<char>;

    closed spec fn view(&self) -> Seq<char> {
        self.0@
    }
}

impl Documentation {
    pub fn new(s: &str) -> (r: Documentation)
        ensures
            r@ == s@,
    {
        Documentation(s.to_owned())
    }

    pub fn contents(&self) -> (r: &str)
        ensures
            r@ == self@,
    {
        self.0.as_str()
    }
}

impl From<Documentation> for String {
    fn from(d: Documentation) -> (r: String) {
        d.0
    }
}

impl vstd::std_specs::convert::FromSpecImpl<Documentation> for String {
    open spec fn obeys_from_spec() -> bool {
        true
    }

    closed spec fn from_spec(d: Documentation) -> String {
        d.0
    }
}

/// Items that can carry documentation.
pub trait Docs {
    fn docs(&self, db: &Db) -> Option<Documentation>;
}

} // verus!
