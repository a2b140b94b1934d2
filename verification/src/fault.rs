//! What goes wrong inside the value model, as values that a caller can report.

use vstd::prelude::*;

verus! {

/// A fault raised by an operation on values.
#[derive(Clone, Copy, Debug, PartialEq, Eq, Structural)]
pub enum ValueError {
    /// The two values are of kinds that have no order between them.
    UnsupportedComparison,
    /// The value written through is not a `Share`.
    NotShared,
    /// The value to be held leads to the cell that is to hold it.
    Cyclic,
    /// The value is not a list, or has no item at the index.
    NoSuchItem,
    /// The value is not a map.
    NotAMap,
}

impl ValueError {
    /// The text of the fault.
    pub open spec fn text(self) -> Seq<char> {
        match self {
            ValueError::UnsupportedComparison => "comparison unsupported for these values"@,
            ValueError::NotShared => "value is not shared"@,
            ValueError::Cyclic => "value refers to the reference that is to hold it"@,
            ValueError::NoSuchItem => "no such list item"@,
            ValueError::NotAMap => "value is not a map"@,
        }
    }

    /// The text of the fault, for a diagnostic.
    pub fn message(&self) -> (out: String)
        ensures
            out@ == self.text(),
    {
        match self {
            ValueError::UnsupportedComparison => "comparison unsupported for these values".to_owned(),
            ValueError::NotShared => "value is not shared".to_owned(),
            ValueError::Cyclic => "value refers to the reference that is to hold it".to_owned(),
            ValueError::NoSuchItem => "no such list item".to_owned(),
            ValueError::NotAMap => "value is not a map".to_owned(),
        }
    }
}

} // verus!
