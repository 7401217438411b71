//! Data that is written to a `.bin` file named after it.
use vstd::prelude::*;

verus! {

/// A named block of bytes; it is stored as `<name>.bin`.
pub trait Savable: Sized {
    spec fn spec_name(&self) -> Seq<char>;

    fn name(&self) -> (n: &str)
        ensures
            n@ == self.spec_name(),
    ;

    fn as_data(&self) -> Vec<u8>;
}

} // verus!
