//! Peak detection and noise characterisation for mass spectra.
//!
//! A spectrum is an ordered run of samples (mass/charge against intensity).
//! The crate derives a robust noise model from it, finds the local intensity
//! maxima, rates each by its signal-to-noise ratio, and keeps the selection of
//! peaks and the set of loaded spectra consistent while they are edited.

pub mod backend;
pub mod frontend;
pub mod scalar;

use crate::backend::after_search;
use crate::backend::appended;
use crate::backend::parser::parse_mzxml_badly;
use crate::backend::parser::parses_to;
use crate::backend::parser::texts;
use crate::backend::parser::view_of;
use crate::backend::selected;
use crate::backend::with_peak;
use crate::backend::Data;
use crate::backend::DataView;
use crate::backend::DatasetView;
use crate::frontend::elements::header::WhichFileOp;
use crate::frontend::elements::header::WhichProcessingOp;
use crate::frontend::elements::popups::blank_find_file;
use crate::frontend::elements::popups::blank_find_peaks;
use crate::frontend::elements::popups::delivered;
use crate::frontend::elements::popups::new_find_file;
use crate::frontend::elements::popups::new_find_peaks;
use crate::frontend::elements::popups::ForPopup;
use crate::frontend::elements::popups::WhichPopup;
use crate::scalar::Scalar;
use vstd::prelude::*;

verus! {

/// What the user asks of the session.
#[derive(Debug, Clone)]
pub enum Message {
    Popup(WhichPopup),
    ClosePopup,
    ToggleVisibility(usize),
    SelectDataset(usize),
    FileOp(WhichFileOp),
    ProcessingOp(WhichProcessingOp),
    ForPopup(ForPopup),
    AddPeak(usize),
    FindPeaks(Scalar, Scalar, Scalar),
    LoadFromPath(String),
    Clear,
    Noop,
}

/// What is left to do outside once the session has taken a message in.
#[derive(Debug, Clone)]
pub enum Action {
    /// Nothing.
    Nothing,
    /// Draw the plot anew.
    Redraw,
    /// Drop the selection in the plot, then draw the plot anew.
    Deselect,
    /// Read the file at this path and hand its lines to
    /// [`MoreMass::loaded`].
    Load(String),
    /// Fit the plot to the loaded data, then draw it anew.
    Rethink,
}

/// A session: the loaded spectra and the form that is open.
#[derive(Debug)]
pub struct MoreMass {
    pub data: Data,
    pub popup: WhichPopup,
}

/// The loaded spectra after the session has taken in `message`.
pub open spec fn data_after(data: DataView, message: Message) -> DataView {
    match message {
        Message::ToggleVisibility(index) => if index < data.sets.len() {
            data.with_set(
                index as int,
                DatasetView {
                    visible: !data.sets[index as int].visible,
                    ..data.sets[index as int]
                },
            )
        } else {
            data
        },
        Message::SelectDataset(index) => selected(data, index),
        Message::FileOp(WhichFileOp::CloseAll) | Message::Clear => DataView::empty(),
        Message::AddPeak(i) => if data.sets.len() > 0 {
            let d = data.sets[data.curr_ds as int];
            data.with_set(
                data.curr_ds as int,
                DatasetView { peaks: with_peak(d.peaks, d.points.len(), i), ..d },
            )
        } else {
            data
        },
        Message::FindPeaks(ratio, abs_int, rel_int) => if data.sets.len() > 0 {
            let d = data.sets[data.curr_ds as int];
            data.with_set(
                data.curr_ds as int,
                DatasetView { peaks: after_search(d, ratio, abs_int, rel_int, true), ..d },
            )
        } else {
            data
        },
        _ => data,
    }
}

/// Whether `next` is the open form after the session, with the form
/// `popup` open, has taken in `message`; `loaded` says whether a spectrum is
/// there to be searched.
pub open spec fn popup_after(
    popup: WhichPopup,
    loaded: bool,
    message: Message,
    next: WhichPopup,
) -> bool {
    match message {
        Message::Popup(which) => next == which,
        Message::ClosePopup => next is NoPopup,
        Message::FileOp(WhichFileOp::Open) => blank_find_file(next),
        Message::ProcessingOp(WhichProcessingOp::FindPeaks) => if loaded {
            blank_find_peaks(next)
        } else {
            next == popup
        },
        Message::ForPopup(msg) => next == delivered(popup, msg),
        Message::FindPeaks(_, _, _) => next is NoPopup,
        _ => next == popup,
    }
}

/// What is left to do outside after `message`.
pub open spec fn action_after(data: DataView, message: Message) -> Action {
    match message {
        Message::LoadFromPath(path) => Action::Load(path),
        Message::ToggleVisibility(_) => Action::Redraw,
        Message::SelectDataset(index) => if index < data.sets.len()
            && !data.sets[index as int].visible {
            Action::Redraw
        } else {
            Action::Nothing
        },
        Message::FileOp(WhichFileOp::CloseAll) | Message::Clear => Action::Redraw,
        Message::AddPeak(_) => Action::Deselect,
        Message::FindPeaks(_, _, _) => if data.sets.len() > 0 {
            Action::Redraw
        } else {
            Action::Nothing
        },
        _ => Action::Nothing,
    }
}

/// No message but the one that toggles visibility hides a spectrum: one
/// that is shown and still loaded after the message is still shown.
pub proof fn lemma_shown_stays_shown(data: DataView, message: Message, j: int)
    requires
        data.valid(),
        !(message is ToggleVisibility),
        0 <= j < data.sets.len(),
        data.sets[j].visible,
        j < data_after(data, message).sets.len(),
    ensures
        data_after(data, message).sets[j].visible,
{
}

impl MoreMass {
    /// A session with nothing loaded and no form open.
    pub fn new() -> (mm: MoreMass)
        ensures
            mm.data@.valid(),
            mm.data@ == DataView::empty(),
            mm.popup is NoPopup,
    {
        MoreMass { data: Data::new(), popup: WhichPopup::NoPopup }
    }

    /// The name of the program.
    pub fn title(&self) -> (t: String)
        ensures
            t@ == "MoreMass"@,
    {
        "MoreMass".to_owned()
    }

    /// Takes a message in, and says what is left to do outside.
    pub fn update(&mut self, message: Message) -> (action: Action)
        ensures
            final(self).data@.valid(),
            final(self).data@ == data_after(old(self).data@, message),
            popup_after(
                old(self).popup,
                old(self).data@.sets.len() > 0,
                message,
                final(self).popup,
            ),
            action == action_after(old(self).data@, message),
    {
        let loaded = self.data.sets().len() > 0;
        match message {
            Message::Popup(which) => {
                self.popup = which;
                Action::Nothing
            },
            Message::ClosePopup => {
                self.popup = WhichPopup::NoPopup;
                Action::Nothing
            },
            Message::LoadFromPath(s) => Action::Load(s),
            Message::ToggleVisibility(index) => {
                self.data.toggle_visibility(index);
                Action::Redraw
            },
            Message::SelectDataset(index) => {
                if self.data.select(index) {
                    Action::Redraw
                } else {
                    Action::Nothing
                }
            },
            Message::FileOp(which) => {
                match which {
                    WhichFileOp::New => Action::Nothing,
                    WhichFileOp::Open => {
                        self.popup = new_find_file();
                        Action::Nothing
                    },
                    WhichFileOp::CloseAll => {
                        self.data.reset();
                        Action::Redraw
                    },
                }
            },
            Message::ProcessingOp(which) => {
                match which {
                    WhichProcessingOp::FindPeaks => {
                        if self.data.curr_ds() < self.data.sets().len() {
                            self.popup = new_find_peaks();
                        }
                        Action::Nothing
                    },
                }
            },
            Message::ForPopup(msg) => {
                self.popup.update(msg);
                Action::Nothing
            },
            Message::AddPeak(i) => {
                self.data.pushpeak(i);
                Action::Deselect
            },
            Message::FindPeaks(ratio, abs_int, rel_int) => {
                let found = self.data.sets().len() > self.data.curr_ds();
                if found {
                    self.data.find_peaks(ratio, abs_int, rel_int);
                }
                self.popup = WhichPopup::NoPopup;
                if found {
                    Action::Redraw
                } else {
                    Action::Nothing
                }
            },
            Message::Clear => {
                self.data.reset();
                Action::Redraw
            },
            Message::Noop => Action::Nothing,
        }
    }

    /// Takes in the lines of the file that was asked for: the spectrum read
    /// from them, if there is one, is added and becomes the current one, and
    /// the open form closes.
    pub fn loaded(&mut self, lines: &Vec<Vec<u8>>) -> (action: Action)
        ensures
            final(self).data@.valid(),
            final(self).popup is NoPopup,
            action is Rethink,
            exists|r: Option<DatasetView>|
                parses_to(texts(lines@), r) && final(self).data@ == match r {
                    Some(d) => appended(old(self).data@, d),
                    None => old(self).data@,
                },
    {
        let read = parse_mzxml_badly(lines);
        let ghost r = view_of(read);
        self.data.push(read);
        assert(parses_to(texts(lines@), r) && self.data@ == match r {
            Some(d) => appended(old(self).data@, d),
            None => old(self).data@,
        });
        self.popup = WhichPopup::NoPopup;
        Action::Rethink
    }
}

} // verus!
