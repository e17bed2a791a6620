use vstd::prelude::*;

verus! {

/// Whether a field is printed white on black over what lies under it.
#[derive(Clone, Debug)]
pub struct ReversePrint {
    pub value: bool,
}

impl Default for ReversePrint {
    fn default() -> (r: Self)
        ensures
            !r.value,
    {
        ReversePrint { value: false }
    }
}

impl ReversePrint {
    pub fn is_reverse_print(&self) -> (r: bool)
        ensures
            r == self.value,
    {
        self.value
    }
}

} // verus!
