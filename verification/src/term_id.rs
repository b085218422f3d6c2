use vstd::prelude::*;

verus! {

/// An opaque, globally unique identifier of a vocabulary concept, carried as
/// its CURIE text (for example `HP:0001250`).
#[derive(Debug)]
pub struct TermId {
    value: String,
}

impl View for TermId {
    type V = Seq<char>;

    closed spec fn view(&self) -> Seq<char> {
        self.value@
    }
}

impl TermId {
    /// Wrap the given identifier text.
    pub fn new(value: &str) -> (r: Self)
        ensures
            r@ == value@,
    {
        TermId { value: value.to_owned() }
    }

    /// The identifier text.
    pub fn as_str(&self) -> (r: &str)
        ensures
            r@ == self@,
    {
        self.value.as_str()
    }
}

impl Clone for TermId {
    fn clone(&self) -> (r: Self)
        ensures
            r@ == self@,
    {
        TermId { value: self.value.clone() }
    }
}

impl PartialEq for TermId {
    fn eq(&self, other: &Self) -> (r: bool) {
        self.value == other.value
    }
}

impl vstd::std_specs::cmp::PartialEqSpecImpl for TermId {
    open spec fn obeys_eq_spec() -> bool {
        true
    }

    open spec fn eq_spec(&self, other: &Self) -> bool {
        self@ == other@
    }
}

} // verus!
