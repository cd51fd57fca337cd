use vstd::prelude::*;

verus! {

/// Where a forwarded line came from.
#[derive(Clone, Copy, Debug, PartialEq, Eq, Structural)]
pub enum Origin {
    Stdout,
    Stderr,
    Lifecycle,
}

/// One unit of forwarded text, numbered within its origin.
#[derive(Debug)]
pub struct OutputLine {
    pub origin: Origin,
    pub ordinal: u64,
    pub content: String,
}

impl OutputLine {
    pub fn new(origin: Origin, ordinal: u64, content: String) -> (r: OutputLine)
        ensures
            r.origin == origin,
            r.ordinal == ordinal,
            r.content@ == content@,
    {
        OutputLine { origin, ordinal, content }
    }
}

} // verus!
