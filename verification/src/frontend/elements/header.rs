//! The two menus of the header.

use vstd::prelude::*;

verus! {

/// An entry of the file menu.
#[derive(Debug, Clone, Copy, Eq, PartialEq, Structural)]
pub enum WhichFileOp {
    New,
    Open,
    CloseAll,
}

impl WhichFileOp {
    /// The entries in the order of the menu.
    pub fn all() -> (ops: [WhichFileOp; 3])
        ensures
            ops@ == seq![WhichFileOp::New, WhichFileOp::Open, WhichFileOp::CloseAll],
    {
        let ops = [WhichFileOp::New, WhichFileOp::Open, WhichFileOp::CloseAll];
        assert(ops@ =~= seq![WhichFileOp::New, WhichFileOp::Open, WhichFileOp::CloseAll]);
        ops
    }

    /// The entry as the menu shows it.
    pub fn label(&self) -> (text: String)
        ensures
            text@ == match *self {
                WhichFileOp::New => "New"@,
                WhichFileOp::Open => "Open"@,
                WhichFileOp::CloseAll => "Close All"@,
            },
    {
        match self {
            WhichFileOp::New => "New".to_owned(),
            WhichFileOp::Open => "Open".to_owned(),
            WhichFileOp::CloseAll => "Close All".to_owned(),
        }
    }
}

/// An entry of the processing menu.
#[derive(Debug, Clone, Copy, Eq, PartialEq, Structural)]
pub enum WhichProcessingOp {
    FindPeaks,
}

impl WhichProcessingOp {
    /// The entries in the order of the menu.
    pub fn all() -> (ops: [WhichProcessingOp; 1])
        ensures
            ops@ == seq![WhichProcessingOp::FindPeaks],
    {
        let ops = [WhichProcessingOp::FindPeaks];
        assert(ops@ =~= seq![WhichProcessingOp::FindPeaks]);
        ops
    }

    /// The entry as the menu shows it.
    pub fn label(&self) -> (text: String)
        ensures
            text@ == "Find Peaks"@,
    {
        match self {
            WhichProcessingOp::FindPeaks => "Find Peaks".to_owned(),
        }
    }
}

} // verus!
