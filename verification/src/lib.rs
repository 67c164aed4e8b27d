//! In-process instrumentation: a probe marks the start of a named
//! execution block, checkpoints split the block into named segments, and a
//! registry folds finished probes into per-name running statistics that can
//! be materialized as a report at any time.

pub mod manager;
pub mod model;
pub mod output;

use vstd::prelude::*;

verus! {

/// The unit every duration in this crate is measured in: nanoseconds.
pub type DurationUnit = u128;

/// Execution probe: the handle for one timed run of a named block. Create
/// it when the block starts, add checkpoints as the block progresses, and
/// stop it to fold the finished measurement into a registry. Stopping is
/// idempotent: only the first call has an effect.
#[derive(Debug, Clone, Eq, PartialEq, Ord, PartialOrd, Hash)]
pub struct ExecProbe {
    pub data: manager::ExecData,
    pub stop_done: bool,
}

impl ExecProbe {
    /// Create a new probe for the named block; measurement starts at the
    /// current instant. No registry is touched until the probe is stopped.
    pub fn new(name: &str) -> (r: ExecProbe)
        ensures
            r.data@.name == name@,
            r.data@.points.len() == 0,
            r.data@.duration == 0,
            r.data@.begin_timestamp == r.data@.now,
            !r.stop_done,
    {
        ExecProbe { data: manager::ExecData::new(name), stop_done: false }
    }

    /// Add a named checkpoint at the current instant, recording the time
    /// spent since the previous checkpoint (or the probe start). A clock
    /// that moved backward drops the checkpoint silently.
    pub fn add_point(&mut self, name: &str)
        ensures
            final(self).stop_done == old(self).stop_done,
            exists|t: DurationUnit|
                final(self).data@ == model::add_point_model(old(self).data@, name@, t),
    {
        self.data.add_point(name);
    }

    /// Stop the probe and fold its finished record into `registry`. Only
    /// the first call has an effect: once stopped, later calls leave both
    /// the probe and the registry unchanged. A record with no checkpoint, a
    /// zero total duration, or a clock that moved backward past the start
    /// is discarded, never folded.
    pub fn stop(&mut self, registry: &mut manager::ExecProbeManager)
        requires
            old(registry).wf(),
        ensures
            final(registry).wf(),
            final(self).stop_done,
            old(self).stop_done ==> *final(self) == *old(self) && *final(registry) == *old(
                registry,
            ),
            !old(self).stop_done ==> exists|t: DurationUnit|
                #![trigger model::stopped_registry(old(registry)@, old(self).data@, t)]
                final(self).data@ == model::stopped_data(old(self).data@, t) && final(registry)@
                    == model::stopped_registry(old(registry)@, old(self).data@, t),
            old(self).data@.points.len() == 0 ==> final(registry)@ == old(registry)@,
    {
        if !self.stop_done {
            self.data.stop(registry);
            self.stop_done = true;
        }
    }
}

} // verus!
