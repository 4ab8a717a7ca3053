use vstd::prelude::*;

verus! {

/// Which schema document to request: an empty skeleton or the annotated
/// synopsis.
#[derive(Clone, Copy, Debug, PartialEq, Eq, Structural)]
pub enum Schema {
    Blank,
    Synopsis,
}

/// Which fields to request: the full record or a named selection.
#[derive(Clone, Debug)]
pub enum Display {
    Full,
    Fields(Vec<String>),
}

} // verus!
