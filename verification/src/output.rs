//! The report model: an immutable snapshot node with a name, an invocation
//! count, an accumulated duration, the duration of its percentage base, and
//! one child per segment in first-seen order.

use crate::model::EntryModel;
use crate::DurationUnit;
use vstd::prelude::*;

verus! {

/// Execution duration metrics for one measured block or one of its
/// segments. A root node's percentage base (`total`) is its own duration, so
/// a root always reports 100%; a child's base is its root's duration.
#[derive(Debug, Eq, PartialEq, Ord, PartialOrd, Hash, Default)]
pub struct ExecDuration {
    pub name: String,
    pub count: u64,
    pub duration: DurationUnit,
    pub total: DurationUnit,
    pub childs: Vec<ExecDuration>,
}

/// How a snapshot node renders one aggregate entry: the root carries the
/// entry's numbers with its own duration as percentage base, and one
/// childless child per segment, in first-seen order, with the root's
/// duration as base.
pub open spec fn report_matches(e: EntryModel, d: ExecDuration) -> bool {
    &&& d.name@ == e.name
    &&& d.count == e.count
    &&& d.duration == e.duration
    &&& d.total == e.duration
    &&& d.childs@.len() == e.segments.len()
    &&& forall|j: int|
        0 <= j < e.segments.len() ==> {
            &&& (#[trigger] d.childs@[j]).name@ == e.segments[j].name
            &&& d.childs@[j].count == e.segments[j].count
            &&& d.childs@[j].duration == e.segments[j].duration
            &&& d.childs@[j].total == e.duration
            &&& d.childs@[j].childs@.len() == 0
        }
}

/// On a node that renders a well-formed aggregate entry, the derived
/// accessors are always defined: the entry was folded at least once and only
/// records with a positive total duration are ever folded, so neither the
/// average nor the percentage of the node or of any of its children divides
/// by zero.
pub proof fn lemma_report_node_defined(e: EntryModel, d: ExecDuration)
    requires
        crate::model::entry_wf(e),
        report_matches(e, d),
    ensures
        d.count >= 1,
        d.total >= 1,
        forall|j: int| 0 <= j < d.childs@.len() ==> (#[trigger] d.childs@[j]).count >= 1,
        forall|j: int| 0 <= j < d.childs@.len() ==> (#[trigger] d.childs@[j]).total >= 1,
{
    assert forall|j: int| 0 <= j < d.childs@.len() implies (#[trigger] d.childs@[j]).count >= 1
        && d.childs@[j].total >= 1 by {
        assert(d.childs@[j].count == e.segments[j].count);
        assert(e.segments[j].count >= 1);
    }
}

impl ExecDuration {
    /// Build a node without children.
    pub fn new(name: &str, count: u64, duration: DurationUnit, total: DurationUnit) -> (r:
        ExecDuration)
        ensures
            r.name@ == name@,
            r.count == count,
            r.duration == duration,
            r.total == total,
            r.childs@.len() == 0,
    {
        ExecDuration { name: name.to_owned(), count, duration, total, childs: Vec::new() }
    }

    /// Append a child node (a segment of this node's block).
    pub fn add(&mut self, v: ExecDuration)
        ensures
            final(self).name == old(self).name,
            final(self).count == old(self).count,
            final(self).duration == old(self).duration,
            final(self).total == old(self).total,
            final(self).childs@ == old(self).childs@.push(v),
    {
        self.childs.push(v);
    }

    /// The share of the percentage base this node's duration makes up,
    /// truncated to a whole percentage. On nodes built by the registry the
    /// duration never exceeds the base by design, so the result is 0 to 100;
    /// a hand-built node whose duration exceeds its base keeps only the low
    /// byte of the quotient.
    pub fn get_exec_percent(&self) -> (r: u8)
        requires
            self.total > 0,
            self.duration * 100 <= u128::MAX,
        ensures
            r == (self.duration * 100 / (self.total as int)) % 256,
            self.duration <= self.total ==> r == self.duration * 100 / (self.total as int),
    {
        proof {
            if self.duration <= self.total {
                assert((self.duration * 100 / (self.total as int)) <= 100) by (nonlinear_arith)
                    requires
                        self.total > 0 && 0 <= self.duration <= self.total,
                ;
                assert((self.duration * 100 / (self.total as int)) >= 0) by (nonlinear_arith)
                    requires
                        self.total > 0 && self.duration >= 0,
                ;
            }
        }
        let q: DurationUnit = self.duration * 100 / self.total;
        (q % 256) as u8
    }

    /// How often the measured block ran.
    pub fn get_exec_count(&self) -> (r: u64)
        ensures
            r == self.count,
    {
        self.count
    }

    /// The average duration of one run, in nanoseconds (integer division).
    pub fn get_avg_duration(&self) -> (r: DurationUnit)
        requires
            self.count > 0,
        ensures
            r == self.duration / (self.count as DurationUnit),
    {
        self.duration / (self.count as DurationUnit)
    }

    /// The accumulated duration of all runs, in nanoseconds.
    pub fn get_total_duration(&self) -> (r: DurationUnit)
        ensures
            r == self.duration,
    {
        self.duration
    }

    /// The direct children: one node per segment, in first-seen order.
    pub fn get_elements(&self) -> (r: &[ExecDuration])
        ensures
            r@ == self.childs@,
    {
        self.childs.as_slice()
    }

    /// The measured block's name.
    pub fn get_name(&self) -> (r: &str)
        ensures
            r@ == self.name@,
    {
        self.name.as_str()
    }
}

} // verus!
