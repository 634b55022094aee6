use vstd::prelude::*;
use crate::ledger::Key;

verus! {

/// The name of something that can be owned or traded, compared by its text.
#[derive(Debug, PartialEq, Eq, Hash)]
pub struct Asset {
    name: String,
}

impl View for Asset {
    type V = Seq<char>;

    closed spec fn view(&self) -> Seq<char> {
        self.name@
    }
}

impl Clone for Asset {
    fn clone(&self) -> (r: Asset)
        ensures
            r@ == self@,
    {
        Asset { name: self.name.clone() }
    }
}

impl Asset {
    pub fn new(name: &str) -> (r: Asset)
        ensures
            r@ == name@,
    {
        Asset { name: name.to_owned() }
    }

    pub fn name(&self) -> (r: &str)
        ensures
            r@ == self@,
    {
        self.name.as_str()
    }

    /// The asset's name as text of its own.
    pub fn to_string(&self) -> (r: String)
        ensures
            r@ == self@,
    {
        self.name.clone()
    }
}

impl Key for Asset {
    fn same(&self, other: &Asset) -> (r: bool) {
        self.name == other.name
    }

    fn duplicate(&self) -> (r: Asset) {
        self.clone()
    }
}

} // verus!
