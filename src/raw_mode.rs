use vstd::prelude::*;

verus! {

/// The terminal's input attributes, as far as raw mode touches them; all
/// other attribute bits travel in `other`, untouched.
#[derive(Clone, Copy, Debug, PartialEq, Eq, Structural)]
pub struct TermMode {
    pub echo: bool,
    pub canonical: bool,
    pub signals: bool,
    pub other: u32,
}

/// `m` with echo, line buffering and signal keys switched off.
pub open spec fn raw_of(m: TermMode) -> TermMode {
    TermMode { echo: false, canonical: false, signals: false, other: m.other }
}

impl TermMode {
    pub fn raw(&self) -> (r: TermMode)
        ensures
            r == raw_of(*self),
    {
        TermMode { echo: false, canonical: false, signals: false, other: self.other }
    }
}

/// The abstract state of the raw-mode controller.
#[derive(Clone, Copy, Debug, PartialEq, Eq, Structural)]
pub struct RawModeModel {
    pub enabled: bool,
    /// The attributes to restore; meaningful while enabled.
    pub saved: TermMode,
}

/// Enabling, with the terminal's present attributes `current`: the new state,
/// and the attributes to set. The baseline is saved only by the first call.
pub open spec fn enable_model(s: RawModeModel, current: TermMode) -> (RawModeModel, TermMode) {
    if s.enabled {
        (s, raw_of(current))
    } else {
        (RawModeModel { enabled: true, saved: current }, raw_of(current))
    }
}

/// Disabling: the saved baseline comes back, however often raw mode was
/// enabled; where it was not enabled, the attributes stay as they are.
pub open spec fn disable_model(s: RawModeModel, current: TermMode) -> (RawModeModel, TermMode) {
    if s.enabled {
        (RawModeModel { enabled: false, saved: s.saved }, s.saved)
    } else {
        (s, current)
    }
}

/// The process's raw-mode switch. It does not set attributes itself: it
/// says which attributes the caller is to set on the terminal, and records
/// the change once the caller reports that setting them succeeded. It has
/// no locking; callers that share it synchronise themselves.
pub struct RawModeController {
    state: RawModeModel,
}

impl View for RawModeController {
    type V = RawModeModel;

    closed spec fn view(&self) -> RawModeModel {
        self.state
    }
}

impl RawModeController {
    pub fn new() -> (r: Self)
        ensures
            !r@.enabled,
    {
        RawModeController {
            state: RawModeModel {
                enabled: false,
                saved: TermMode { echo: true, canonical: true, signals: true, other: 0 },
            },
        }
    }

    pub fn is_enabled(&self) -> (r: bool)
        ensures
            r == self@.enabled,
    {
        self.state.enabled
    }

    /// The attributes to set to enable raw mode, given the present ones.
    /// Nothing is recorded until `record_enabled` says that setting them
    /// succeeded.
    pub fn enable_target(&self, current: TermMode) -> (apply: TermMode)
        ensures
            apply == enable_model(self@, current).1,
    {
        current.raw()
    }

    /// Records that raw mode was set from the attributes `current`; the
    /// first such record saves them as the baseline.
    pub fn record_enabled(&mut self, current: TermMode)
        ensures
            final(self)@ == enable_model(old(self)@, current).0,
    {
        if !self.state.enabled {
            self.state = RawModeModel { enabled: true, saved: current };
        }
    }

    /// The attributes to set to disable raw mode: the saved baseline where
    /// raw mode is on, else the present ones. Nothing is recorded until
    /// `record_disabled` says that setting them succeeded.
    pub fn disable_target(&self, current: TermMode) -> (apply: TermMode)
        ensures
            apply == disable_model(self@, current).1,
    {
        if self.state.enabled {
            self.state.saved
        } else {
            current
        }
    }

    /// Records that the baseline was set again.
    pub fn record_disabled(&mut self)
        ensures
            forall|m: TermMode| final(self)@ == #[trigger] disable_model(old(self)@, m).0,
    {
        self.state.enabled = false;
    }
}

/// From any attributes with raw mode off, enabling and then disabling
/// restores exactly the attributes it started from, and so does enabling twice
/// before disabling: enabling is idempotent, not counted.
pub proof fn lemma_enable_disable_restores(s: RawModeModel, m: TermMode)
    requires
        !s.enabled,
    ensures
        ({
            let (s1, m1) = enable_model(s, m);
            let (s2, m2) = disable_model(s1, m1);
            m2 == m && !s2.enabled
        }),
        ({
            let (s1, m1) = enable_model(s, m);
            let (s2, m2) = enable_model(s1, m1);
            let (s3, m3) = disable_model(s2, m2);
            m3 == m && !s3.enabled
        }),
{
}

} // verus!
