//! The form that asks for the path of a file.

use vstd::prelude::*;

verus! {

/// What the form is told.
#[derive(Debug, Clone)]
pub enum FindFileMsg {
    /// The text of the path field is now this.
    PathInput(String),
}

/// What the form holds.
#[derive(Debug, Clone)]
pub struct State {
    pub file_path: String,
}

impl Default for State {
    fn default() -> (s: State)
        ensures
            s.file_path@.len() == 0,
    {
        State { file_path: String::new() }
    }
}

impl State {
    /// Takes over what was typed.
    pub fn update(&mut self, msg: FindFileMsg)
        ensures
            final(self).file_path == msg->PathInput_0,
    {
        match msg {
            FindFileMsg::PathInput(s) => {
                self.file_path = s;
            },
        }
    }
}

} // verus!
