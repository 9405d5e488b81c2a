//! The terminal's line-discipline settings, the raw mode derived from them,
//! and the session bracket: capture the settings, apply raw mode, run the
//! loop, and restore the captured settings on every way out.
use vstd::prelude::*;

verus! {

/// Input flag: a break raises an interrupt.
pub const BRKINT: u32 = 0o000002;

/// Input flag: parity checking.
pub const INPCK: u32 = 0o000020;

/// Input flag: strip the eighth bit.
pub const ISTRIP: u32 = 0o000040;

/// Input flag: carriage return becomes newline.
pub const ICRNL: u32 = 0o000400;

/// Input flag: start/stop output control.
pub const IXON: u32 = 0o002000;

/// Output flag: output post-processing.
pub const OPOST: u32 = 0o000001;

/// Control flag: eight bits per character.
pub const CS8: u32 = 0o000060;

/// Local flag: signal-generating characters.
pub const ISIG: u32 = 0o000001;

/// Local flag: canonical, line-buffered input.
pub const ICANON: u32 = 0o000002;

/// Local flag: echo of input characters.
pub const ECHO: u32 = 0o000010;

/// Local flag: extended input processing.
pub const IEXTEN: u32 = 0o100000;

/// Number of control characters.
pub const NCCS: usize = 32;

/// Index of the minimum byte count for a read among the control characters.
pub const VMIN: usize = 6;

/// Index of the read timeout, in tenths of a second, among the control characters.
pub const VTIME: usize = 5;

/// Input flags that raw mode clears.
pub const RAW_INPUT_OFF: u32 = BRKINT | ICRNL | INPCK | ISTRIP | IXON;

/// Output flags that raw mode clears.
pub const RAW_OUTPUT_OFF: u32 = OPOST;

/// Local flags that raw mode clears.
pub const RAW_LOCAL_OFF: u32 = ECHO | ICANON | IEXTEN | ISIG;

/// The read timeout raw mode sets, in tenths of a second.
pub const RAW_TIMEOUT: u8 = 1;

/// A snapshot of the terminal's line-discipline settings.
pub struct TermSettings {
    pub input_modes: u32,
    pub output_modes: u32,
    pub control_modes: u32,
    pub local_modes: u32,
    pub control_chars: Vec<u8>,
}

/// The settings as plain values, compared field by field.
pub struct TermModel {
    pub input_modes: u32,
    pub output_modes: u32,
    pub control_modes: u32,
    pub local_modes: u32,
    pub control_chars: Seq<u8>,
}

impl TermSettings {
    pub open spec fn model(&self) -> TermModel {
        TermModel {
            input_modes: self.input_modes,
            output_modes: self.output_modes,
            control_modes: self.control_modes,
            local_modes: self.local_modes,
            control_chars: self.control_chars@,
        }
    }

    /// A copy with the same values.
    pub fn copy(&self) -> (r: TermSettings)
        ensures
            r.model() == self.model(),
    {
        let cc = self.control_chars.clone();
        assert(cc@ =~= self.control_chars@);
        TermSettings {
            input_modes: self.input_modes,
            output_modes: self.output_modes,
            control_modes: self.control_modes,
            local_modes: self.local_modes,
            control_chars: cc,
        }
    }
}

/// Raw mode as derived from the settings `s`: canonical input, echo, signal
/// characters, output post-processing and the listed input translations off,
/// eight-bit characters, reads that return at once with a timeout of one
/// tenth of a second; everything else as in `s`.
pub open spec fn raw_of(s: TermModel) -> TermModel {
    TermModel {
        input_modes: s.input_modes & !RAW_INPUT_OFF,
        output_modes: s.output_modes & !RAW_OUTPUT_OFF,
        control_modes: s.control_modes | CS8,
        local_modes: s.local_modes & !RAW_LOCAL_OFF,
        control_chars: s.control_chars.update(VMIN as int, 0).update(VTIME as int, RAW_TIMEOUT),
    }
}

/// The raw-mode settings derived from the snapshot `s`.
pub fn raw_mode(s: &TermSettings) -> (r: TermSettings)
    requires
        s.control_chars@.len() > VMIN,
    ensures
        r.model() == raw_of(s.model()),
{
    let mut cc = s.control_chars.clone();
    assert(cc@ =~= s.control_chars@);
    cc.set(VMIN, 0);
    cc.set(VTIME, RAW_TIMEOUT);
    TermSettings {
        input_modes: s.input_modes & !RAW_INPUT_OFF,
        output_modes: s.output_modes & !RAW_OUTPUT_OFF,
        control_modes: s.control_modes | CS8,
        local_modes: s.local_modes & !RAW_LOCAL_OFF,
        control_chars: cc,
    }
}

} // verus!
