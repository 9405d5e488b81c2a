//! The session: a bracket around the interactive loop. The settings are
//! captured once, raw mode is applied, lines are read and run until an exit
//! directive or a failed read, and the captured settings are restored exactly
//! once on every way out, a failed apply included. The caller performs each
//! command and hands back what came of it.
use vstd::prelude::*;
use crate::terminal::{raw_mode, raw_of, TermModel, TermSettings, VMIN};

verus! {

/// Where the session stands.
#[derive(Clone, Copy, Debug, PartialEq, Eq, Structural)]
pub enum Phase {
    /// Waiting for the terminal settings to be captured.
    Capturing,
    /// Waiting for raw mode to be applied.
    Applying,
    /// Running the loop: waiting for one line to be read and run.
    Active,
    /// Waiting for the captured settings to be restored.
    Restoring,
    /// Over.
    Finished,
}

/// What came of the last command.
pub enum Event {
    /// The settings were read.
    Captured(TermSettings),
    /// The input is no controllable terminal, or reading its settings failed.
    CaptureFailed,
    /// Raw mode is in force.
    Applied,
    /// Applying raw mode failed.
    ApplyFailed,
    /// A line was read and its pipeline ran to its end.
    PipelineDone,
    /// A line was read and its pipeline held the exit directive.
    ExitRequested,
    /// Reading a line failed.
    ReadFailed,
    /// The captured settings are back in force.
    Restored,
    /// Restoring the captured settings failed.
    RestoreFailed,
}

/// What the caller does next.
pub enum Command {
    /// Read the terminal's current settings.
    Capture,
    /// Put these settings in force at once.
    Apply(TermSettings),
    /// Show the prompt, read one line and run its pipeline.
    ReadLine,
    /// Put these settings back in force.
    Restore(TermSettings),
    /// Leave; `restore_failed` says whether restoring had to be reported as failed.
    Stop { restore_failed: bool },
}

pub struct Session {
    phase: Phase,
    original: Option<TermSettings>,
    restores: Ghost<Seq<TermModel>>,
}

impl Session {
    pub closed spec fn phase(&self) -> Phase {
        self.phase
    }

    /// The captured settings, once there are any.
    pub closed spec fn original(&self) -> Option<TermModel> {
        match self.original {
            Some(s) => Some(s.model()),
            None => None,
        }
    }

    /// Every settings value this session has asked to restore, in order.
    pub closed spec fn restores(&self) -> Seq<TermModel> {
        self.restores@
    }

    pub closed spec fn wf(&self) -> bool {
        &&& self.phase == Phase::Capturing ==> self.original is None
        &&& (self.phase == Phase::Applying || self.phase == Phase::Active) ==> self.original is Some
            && self.restores@ == Seq::<TermModel>::empty()
        &&& self.phase == Phase::Capturing ==> self.restores@ == Seq::<TermModel>::empty()
        &&& (self.phase == Phase::Restoring || self.phase == Phase::Finished) ==> match self.original {
            Some(s) => self.restores@ == seq![s.model()],
            None => self.restores@ == Seq::<TermModel>::empty(),
        }
        &&& self.phase == Phase::Restoring ==> self.original is Some
    }

    /// A session that has done nothing yet: its first command is to capture
    /// the settings.
    pub fn new() -> (r: Session)
        ensures
            r.wf(),
            r.phase() == Phase::Capturing,
            r.original() is None,
            r.restores() == Seq::<TermModel>::empty(),
    {
        Session { phase: Phase::Capturing, original: None, restores: Ghost(Seq::empty()) }
    }

    /// Where the session stands.
    pub fn current_phase(&self) -> (r: Phase)
        ensures
            r == self.phase(),
    {
        self.phase
    }

    /// The command that starts a session.
    pub fn first_command(&self) -> (r: Command)
        ensures
            r is Capture,
    {
        Command::Capture
    }

    /// Takes what came of the last command and gives the next one.
    ///
    /// Captured settings are kept and raw mode derived from them is applied;
    /// settings with too few control characters cannot be made raw and are
    /// restored at once. Once raw mode is in force lines are read until a
    /// pipeline asks to exit or a read fails. Every way out of a session that
    /// captured settings goes through one restore of exactly those settings;
    /// an event that does not fit the phase also ends the session that way.
    pub fn handle(&mut self, event: Event) -> (r: Command)
        requires
            old(self).wf(),
        ensures
            final(self).wf(),
            final(self).restores() == old(self).restores() + match r {
                Command::Restore(s) => seq![s.model()],
                _ => Seq::<TermModel>::empty(),
            },
            r matches Command::Restore(s) ==> final(self).original() == Some(s.model())
                && final(self).phase() == Phase::Restoring,
            r is Stop <==> final(self).phase() == Phase::Finished,
            old(self).phase() == Phase::Capturing ==> match event {
                Event::Captured(s) => final(self).original() == Some(s.model()) && if s.control_chars@.len()
                    > VMIN {
                    r matches Command::Apply(raw) && raw.model() == raw_of(s.model())
                        && final(self).phase() == Phase::Applying
                } else {
                    r is Restore
                },
                _ => r is Stop && final(self).original() is None,
            },
            old(self).phase() == Phase::Applying ==> match event {
                Event::Applied => r is ReadLine && final(self).phase() == Phase::Active,
                _ => r is Restore,
            },
            old(self).phase() == Phase::Active ==> match event {
                Event::PipelineDone => r is ReadLine && final(self).phase() == Phase::Active,
                _ => r is Restore,
            },
            old(self).phase() == Phase::Restoring ==> match event {
                Event::RestoreFailed => r == (Command::Stop { restore_failed: true }),
                _ => r == (Command::Stop { restore_failed: false }),
            },
            old(self).phase() == Phase::Finished ==> r is Stop,
            old(self).phase() != Phase::Capturing ==> final(self).original() == old(self).original(),
    {
        match self.phase {
            Phase::Capturing => {
                match event {
                    Event::Captured(s) => {
                        if s.control_chars.len() > VMIN {
                            let raw = raw_mode(&s);
                            self.original = Some(s);
                            self.phase = Phase::Applying;
                            Command::Apply(raw)
                        } else {
                            let back = s.copy();
                            self.restores = Ghost(self.restores@.push(s.model()));
                            self.original = Some(s);
                            self.phase = Phase::Restoring;
                            Command::Restore(back)
                        }
                    },
                    _ => {
                        self.phase = Phase::Finished;
                        Command::Stop { restore_failed: false }
                    },
                }
            },
            Phase::Applying => {
                match event {
                    Event::Applied => {
                        self.phase = Phase::Active;
                        Command::ReadLine
                    },
                    _ => self.begin_restore(),
                }
            },
            Phase::Active => {
                match event {
                    Event::PipelineDone => Command::ReadLine,
                    _ => self.begin_restore(),
                }
            },
            Phase::Restoring => {
                self.phase = Phase::Finished;
                match event {
                    Event::RestoreFailed => Command::Stop { restore_failed: true },
                    _ => Command::Stop { restore_failed: false },
                }
            },
            Phase::Finished => Command::Stop { restore_failed: false },
        }
    }

    fn begin_restore(&mut self) -> (r: Command)
        requires
            old(self).wf(),
            old(self).phase() == Phase::Applying || old(self).phase() == Phase::Active,
        ensures
            final(self).wf(),
            final(self).phase() == Phase::Restoring,
            final(self).original() == old(self).original(),
            r matches Command::Restore(s) && old(self).original() == Some(s.model()),
            final(self).restores() == old(self).restores().push(old(self).original()->Some_0),
    {
        let back = match &self.original {
            Some(s) => s.copy(),
            None => {
                proof {
                    assert(false);
                }
                TermSettings {
                    input_modes: 0,
                    output_modes: 0,
                    control_modes: 0,
                    local_modes: 0,
                    control_chars: Vec::new(),
                }
            },
        };
        self.restores = Ghost(self.restores@.push(back.model()));
        self.phase = Phase::Restoring;
        Command::Restore(back)
    }
}

/// Settings captured at the start are restored exactly once, unchanged, by the
/// time the session is over, whichever way it ended.
pub proof fn lemma_restored_exactly_once(s: Session)
    requires
        s.wf(),
        s.phase() == Phase::Finished,
        s.original() is Some,
    ensures
        s.restores() == seq![s.original()->Some_0],
{
}

} // verus!
