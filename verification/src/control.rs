//! Playback control: the pause flag and the control-thread key handling.
//!
//! The control thread owns this state; the audio thread only ever reads the
//! pause flag.  Keys toggle pause, detach the UI while keeping audio alive,
//! or quit the whole process.

use vstd::prelude::*;

verus! {

/// How the control loop ends: leave the terminal UI but keep the audio
/// thread running, or terminate the whole process.
#[derive(Clone, Copy, Debug, PartialEq, Eq, Structural)]
pub enum ExitStatus {
    KeepAudio,
    ExitAll,
}

/// A key press, reduced to the inputs the control loop reacts to.
#[derive(Clone, Copy, Debug, PartialEq, Eq, Structural)]
pub enum ControlKey {
    /// Leave the rendering loop but keep audio alive.
    HideUi,
    /// Flip the pause flag.
    TogglePause,
    /// Terminate everything.
    Quit,
    /// Any other key: ignored.
    Other,
}

/// State owned by the control thread.
#[derive(Clone, Copy, Debug, PartialEq, Eq, Structural)]
pub struct ControlState {
    /// Whether playback is paused.  Set only here; the audio callback reads
    /// it once per invocation.
    pub paused: bool,
}

impl ControlState {
    /// The state with the pause flag flipped.
    pub open spec fn spec_toggled(self) -> ControlState {
        ControlState { paused: !self.paused }
    }

    /// Playback starts running, not paused.
    pub fn new() -> (s: ControlState)
        ensures
            !s.paused,
    {
        ControlState { paused: false }
    }

    /// Flip the pause flag.
    pub fn toggle_pause(&mut self)
        ensures
            *final(self) == old(self).spec_toggled(),
    {
        self.paused = !self.paused;
    }

    /// React to one key press: returns how to exit the rendering loop, or
    /// `None` to keep rendering.  Only `TogglePause` changes the state.
    pub fn handle_key(&mut self, key: ControlKey) -> (exit: Option<ExitStatus>)
        ensures
            key == ControlKey::HideUi ==> exit == Some(ExitStatus::KeepAudio) && *final(self)
                == *old(self),
            key == ControlKey::Quit ==> exit == Some(ExitStatus::ExitAll) && *final(self) == *old(
                self,
            ),
            key == ControlKey::TogglePause ==> exit is None && *final(self) == old(
                self,
            ).spec_toggled(),
            key == ControlKey::Other ==> exit is None && *final(self) == *old(self),
    {
        match key {
            ControlKey::HideUi => Some(ExitStatus::KeepAudio),
            ControlKey::TogglePause => {
                self.toggle_pause();
                None
            },
            ControlKey::Quit => Some(ExitStatus::ExitAll),
            ControlKey::Other => None,
        }
    }
}

/// Law: toggling pause twice in a row, with nothing in between, leaves the
/// control state exactly as it was.
pub proof fn lemma_toggle_pause_twice(s: ControlState)
    ensures
        s.spec_toggled().spec_toggled() == s,
{
}

} // verus!
