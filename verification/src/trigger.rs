//! The trigger coordinator's decisions: which of the three drivers fired a
//! run, when the polled change proxy demands a scan, and which native change
//! events deserve one. The loops that wait and fire live outside; what they
//! decide is here.

use vstd::prelude::*;

verus! {

/// Which driver fired a run: the periodic full scan, the change-detected
/// quick scan, or the externally invoked on-demand scan.
#[derive(Clone, Copy, PartialEq, Eq, Structural, Debug)]
pub enum TriggerKind {
    Full,
    Quick,
    Webhook,
}

impl TriggerKind {
    /// The label a run's metrics are recorded under.
    pub fn label(&self) -> (r: &'static str)
        ensures
            (*self is Full ==> r@ == "full"@),
            (*self is Quick ==> r@ == "quick"@),
            (*self is Webhook ==> r@ == "webhook"@),
    {
        match self {
            TriggerKind::Full => "full",
            TriggerKind::Quick => "quick",
            TriggerKind::Webhook => "webhook",
        }
    }
}

/// The polling change detector: remembers the proxy value it last observed
/// and demands a scan only when the observed value changes. The very first
/// observation only primes it.
pub struct ChangePoller {
    pub last: Option<String>,
}

impl ChangePoller {
    /// A fresh detector that has observed nothing.
    pub fn new() -> (r: ChangePoller)
        ensures
            r.last is None,
    {
        ChangePoller { last: None }
    }

    /// Takes one observation of the change proxy. Returns whether a scan is
    /// due: only when a previously observed value changed. The observation is
    /// remembered either way.
    pub fn observe(&mut self, value: String) -> (run: bool)
        ensures
            final(self).last == Some(value),
            run == match old(self).last {
                Some(prev) => prev@ != value@,
                None => false,
            },
    {
        let run = match &self.last {
            Some(prev) => !(*prev == value),
            None => false,
        };
        self.last = Some(value);
        run
    }
}

/// The kinds of native filesystem change notification a watcher hands out.
#[derive(Clone, Copy, PartialEq, Eq, Structural, Debug)]
pub enum ChangeEventKind {
    Access,
    Create,
    Modify,
    Remove,
    Other,
}

/// Whether a native change event deserves a scan: pure accesses and vendor
/// "other" events are filtered out to avoid redundant work.
pub fn event_demands_scan(kind: ChangeEventKind) -> (r: bool)
    ensures
        r == !(kind is Access || kind is Other),
{
    match kind {
        ChangeEventKind::Access => false,
        ChangeEventKind::Other => false,
        ChangeEventKind::Create => true,
        ChangeEventKind::Modify => true,
        ChangeEventKind::Remove => true,
    }
}

} // verus!
