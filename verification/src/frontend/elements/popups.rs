//! The form that is open beside the plot, if any.

pub mod find_file;
pub mod find_peaks;

use crate::frontend::elements::popups::find_file::FindFileMsg;
use crate::frontend::elements::popups::find_peaks::FindPeaksMsg;
use vstd::prelude::*;

verus! {

/// Which form is open, with what it holds.
#[derive(Debug, Clone)]
pub enum WhichPopup {
    NoPopup,
    FindFile(find_file::State),
    FindPeaks(find_peaks::State),
}

impl Default for WhichPopup {
    fn default() -> (p: WhichPopup)
        ensures
            p is NoPopup,
    {
        WhichPopup::NoPopup
    }
}

/// A message to one of the forms.
#[derive(Debug, Clone)]
pub enum ForPopup {
    ForFindFile(FindFileMsg),
    ForFindPeaks(FindPeaksMsg),
}

/// The form `p` after it got the message `msg`. A message to a form that
/// is not open is lost.
pub open spec fn delivered(p: WhichPopup, msg: ForPopup) -> WhichPopup {
    match (p, msg) {
        (WhichPopup::FindFile(_), ForPopup::ForFindFile(FindFileMsg::PathInput(s))) => {
            WhichPopup::FindFile(find_file::State { file_path: s })
        },
        (WhichPopup::FindPeaks(state), ForPopup::ForFindPeaks(m)) => WhichPopup::FindPeaks(
            match m {
                FindPeaksMsg::SNRatio(s) => find_peaks::State { sn_ratio: s, ..state },
                FindPeaksMsg::AbsIntensity(s) => find_peaks::State { abs_intensity: s, ..state },
                FindPeaksMsg::RelIntensity(s) => find_peaks::State { rel_intensity: s, ..state },
            },
        ),
        _ => p,
    }
}

impl WhichPopup {
    /// Hands a message to the open form, if it is meant for that form.
    pub fn update(&mut self, msg: ForPopup)
        ensures
            *final(self) == delivered(*old(self), msg),
    {
        match self {
            WhichPopup::FindFile(state) => {
                match msg {
                    ForPopup::ForFindFile(m) => {
                        state.update(m);
                    },
                    _ => {},
                }
            },
            WhichPopup::FindPeaks(state) => {
                match msg {
                    ForPopup::ForFindPeaks(m) => {
                        state.update(m);
                    },
                    _ => {},
                }
            },
            WhichPopup::NoPopup => {},
        }
    }
}

/// Whether `p` is the form that asks for a file, with nothing typed.
pub open spec fn blank_find_file(p: WhichPopup) -> bool {
    p matches WhichPopup::FindFile(s) && s.file_path@.len() == 0
}

/// Whether `p` is the form that asks for the bounds of a peak search, with
/// nothing typed.
pub open spec fn blank_find_peaks(p: WhichPopup) -> bool {
    p matches WhichPopup::FindPeaks(s) && s.sn_ratio@.len() == 0 && s.abs_intensity@.len() == 0
        && s.rel_intensity@.len() == 0
}

/// The form that asks for a file, with nothing typed yet.
pub fn new_find_file() -> (p: WhichPopup)
    ensures
        blank_find_file(p),
{
    WhichPopup::FindFile(find_file::State::default())
}

/// The form that asks for the bounds of a peak search, with nothing typed
/// yet.
pub fn new_find_peaks() -> (p: WhichPopup)
    ensures
        blank_find_peaks(p),
{
    WhichPopup::FindPeaks(find_peaks::State::default())
}

} // verus!
