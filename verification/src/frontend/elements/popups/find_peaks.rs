//! The form that asks for the bounds of a peak search.

use crate::scalar::Scalar;
use crate::Message;
use vstd::prelude::*;

verus! {

/// What the form is told: the text of one of its fields is now this.
#[derive(Debug, Clone)]
pub enum FindPeaksMsg {
    SNRatio(String),
    AbsIntensity(String),
    RelIntensity(String),
}

/// What the form holds: the text of its three fields.
#[derive(Debug, Clone)]
pub struct State {
    pub sn_ratio: String,
    pub abs_intensity: String,
    pub rel_intensity: String,
}

impl Default for State {
    fn default() -> (s: State)
        ensures
            s.sn_ratio@.len() == 0,
            s.abs_intensity@.len() == 0,
            s.rel_intensity@.len() == 0,
    {
        State { sn_ratio: String::new(), abs_intensity: String::new(), rel_intensity: String::new() }
    }
}

/// The number that a field stands for: the one read from it, and zero where
/// none could be read.
pub open spec fn or_zero(read: Option<Scalar>) -> Scalar {
    match read {
        Some(v) => v,
        None => Scalar { bits: 0 },
    }
}

impl State {
    /// Takes over what was typed into one of the fields. The other two keep
    /// their text.
    pub fn update(&mut self, msg: FindPeaksMsg)
        ensures
            *final(self) == match msg {
                FindPeaksMsg::SNRatio(s) => State { sn_ratio: s, ..*old(self) },
                FindPeaksMsg::AbsIntensity(s) => State { abs_intensity: s, ..*old(self) },
                FindPeaksMsg::RelIntensity(s) => State { rel_intensity: s, ..*old(self) },
            },
    {
        match msg {
            FindPeaksMsg::SNRatio(s) => {
                self.sn_ratio = s;
            },
            FindPeaksMsg::AbsIntensity(s) => {
                self.abs_intensity = s;
            },
            FindPeaksMsg::RelIntensity(s) => {
                self.rel_intensity = s;
            },
        }
    }

    /// The search that the form asks for, given what could be read as a
    /// number from each of its fields. A field from which none could be
    /// read counts as zero.
    pub fn parse_inputs(
        &self,
        sn_ratio: Option<Scalar>,
        abs_intensity: Option<Scalar>,
        rel_intensity: Option<Scalar>,
    ) -> (m: Message)
        ensures
            m == Message::FindPeaks(
                or_zero(sn_ratio),
                or_zero(abs_intensity),
                or_zero(rel_intensity),
            ),
    {
        let ratio = if let Some(v) = sn_ratio {
            v
        } else {
            Scalar::zero()
        };
        let abs_int = if let Some(v) = abs_intensity {
            v
        } else {
            Scalar::zero()
        };
        let rel_int = if let Some(v) = rel_intensity {
            v
        } else {
            Scalar::zero()
        };
        Message::FindPeaks(ratio, abs_int, rel_int)
    }
}

} // verus!
