//! The session engine: an ordered, three-phase pipeline of middleware
//! stages with continuation control.
//!
//! A dispatch walks the phases in the fixed order before, then, after,
//! and within a phase runs the stages in registration order. After each
//! stage the engine reads the stage's control handle: an explicit
//! continue signal lets the walk advance; anything else — an explicit
//! terminate, or a handle released without a signal — stops the whole
//! pipeline at once, skipping every remaining stage in every remaining
//! phase.

use vstd::prelude::*;

use crate::middleware::{MiddlewareMethod, MiddlewareSession};
use crate::request::Request;
use crate::response::Response;

verus! {

/// One route's pipeline: three ordered phases of stages, built at
/// registration time and immutable afterwards.
pub struct Session<T> {
    /// The stages run first.
    pub before: Vec<T>,
    /// The main stages, run when every `before` stage continued.
    pub then_stages: Vec<T>,
    /// The stages run last, when every earlier stage continued.
    pub after: Vec<T>,
}

/// How a dispatch ended: `Completed` when every stage ran and the last
/// one continued (or there was no stage at all), `Terminated` when a
/// stage stopped the pipeline.
#[derive(Clone, Copy, PartialEq, Eq, Structural, Debug)]
pub enum DispatchStatus {
    Completed,
    Terminated,
}

/// What one dispatch did: how many stages ran, how it ended, and the
/// signal each invoked stage left on its control handle, in order.
pub struct DispatchReport {
    /// How many stages were invoked.
    pub stages_run: usize,
    /// How the walk ended.
    pub status: DispatchStatus,
    /// The signal of each invoked stage: `Some(true)` continue,
    /// `Some(false)` terminate, `None` released without a signal.
    pub signals: Ghost<Seq<Option<bool>>>,
}

/// The walk a report describes is the one the engine owes: one signal
/// per invoked stage, every stage but the last invoked continued, and
/// the walk covered all `total` stages exactly when it completed.
pub open spec fn report_valid(r: DispatchReport, total: nat) -> bool {
    &&& r.signals@.len() == r.stages_run as nat
    &&& r.stages_run as nat <= total
    &&& (forall|i: int| 0 <= i < r.stages_run as int - 1 ==> r.signals@[i] == Some(true))
    &&& (r.status is Completed ==> r.stages_run as nat == total && (total > 0 ==> r.signals@[total
        - 1] == Some(true)))
    &&& (r.status is Terminated ==> r.stages_run > 0 && r.signals@[r.stages_run - 1] != Some(true))
    &&& (((r.stages_run as nat) < total) ==> r.status is Terminated)
}

/// A stage that left its control handle without an explicit continue —
/// an explicit terminate, or silence — is the last stage the dispatch
/// ran: no later stage follows it, and the walk ended terminated.
pub proof fn lemma_silent_stage_stops(report: DispatchReport, total: nat, i: int)
    requires
        report_valid(report, total),
        0 <= i < report.stages_run,
        report.signals@[i] != Some(true),
    ensures
        i == report.stages_run - 1,
        report.status is Terminated,
{
    if report.status is Completed {
        assert(report.stages_run as nat == total);
        assert(report.signals@[total - 1] == Some(true));
    }
}

fn run_phase<T: MiddlewareMethod>(stages: &Vec<T>, req: &Request, res: &mut Response) -> (r: (
    usize,
    bool,
    Ghost<Seq<Option<bool>>>,
))
    ensures
        r.2@.len() == r.0 as nat,
        r.0 <= stages@.len(),
        forall|j: int| 0 <= j < r.0 as int - 1 ==> r.2@[j] == Some(true),
        r.1 ==> r.0 == stages@.len() && (forall|j: int|
            0 <= j < r.0 as int ==> r.2@[j] == Some(true)),
        !r.1 ==> r.0 > 0 && r.2@[r.0 as int - 1] != Some(true),
{
    let n = stages.len();
    let mut i: usize = 0;
    let ghost mut sigs: Seq<Option<bool>> = seq![];
    while i < n
        invariant
            i <= n,
            n == stages@.len(),
            sigs.len() == i,
            forall|j: int| 0 <= j < i ==> sigs[j] == Some(true),
        decreases n - i,
    {
        let mut ctl = MiddlewareSession::new();
        let stage = vstd::std_specs::vec::vec_index(stages, i);
        stage.call(req, res, &mut ctl);
        let go = ctl.proceeds();
        proof {
            sigs = sigs.push(ctl.signal());
        }
        if !go {
            return (i + 1, false, Ghost(sigs));
        }
        i += 1;
    }
    (i, true, Ghost(sigs))
}

impl<T> Session<T> {
    /// How many stages the three phases hold together.
    pub open spec fn total_stages(&self) -> nat {
        self.before@.len() + self.then_stages@.len() + self.after@.len()
    }

    /// The stage count fits the machine.
    pub open spec fn wf(&self) -> bool {
        self.total_stages() <= usize::MAX
    }

    /// A session with no stages yet.
    pub fn new() -> (r: Session<T>)
        ensures
            r.wf(),
            r.before@ == Seq::<T>::empty(),
            r.then_stages@ == Seq::<T>::empty(),
            r.after@ == Seq::<T>::empty(),
    {
        Session { before: Vec::new(), then_stages: Vec::new(), after: Vec::new() }
    }

    /// Appends a stage to the main phase.
    pub fn then_stage(&mut self, method: T)
        requires
            old(self).total_stages() < usize::MAX,
        ensures
            final(self).wf(),
            final(self).then_stages@ == old(self).then_stages@.push(method),
            final(self).before == old(self).before,
            final(self).after == old(self).after,
    {
        self.then_stages.push(method);
    }

    /// Appends a stage to the phase run first.
    pub fn before(&mut self, method: T)
        requires
            old(self).total_stages() < usize::MAX,
        ensures
            final(self).wf(),
            final(self).before@ == old(self).before@.push(method),
            final(self).then_stages == old(self).then_stages,
            final(self).after == old(self).after,
    {
        self.before.push(method);
    }

    /// Appends a stage to the phase run last.
    pub fn after(&mut self, method: T)
        requires
            old(self).total_stages() < usize::MAX,
        ensures
            final(self).wf(),
            final(self).after@ == old(self).after@.push(method),
            final(self).before == old(self).before,
            final(self).then_stages == old(self).then_stages,
    {
        self.after.push(method);
    }
}

impl<T: MiddlewareMethod> Session<T> {
    /// Runs the pipeline for one request: phases in fixed order, stages
    /// in registration order, each with a fresh control handle, until a
    /// stage fails to signal continue or the stages run out.
    ///
    /// The contract speaks of the walk — the signal count, the order,
    /// the stop rule — and of nothing else: stages are arbitrary user
    /// code, so what they did to the response is not statable here, and
    /// any signal sequence a walk could produce is an admissible
    /// outcome.
    pub fn dispatch(&self, req: &Request, res: &mut Response) -> (report: DispatchReport)
        requires
            self.wf(),
        ensures
            report_valid(report, self.total_stages()),
    {
        let (c1, go1, g1) = run_phase(&self.before, req, res);
        let ghost s1 = g1@;
        if !go1 {
            let report = DispatchReport {
                stages_run: c1,
                status: DispatchStatus::Terminated,
                signals: Ghost(s1),
            };
            return report;
        }
        let (c2, go2, g2) = run_phase(&self.then_stages, req, res);
        let ghost s2 = g2@;
        if !go2 {
            let report = DispatchReport {
                stages_run: c1 + c2,
                status: DispatchStatus::Terminated,
                signals: Ghost(s1 + s2),
            };
            proof {
                assert(report.signals@.len() == c1 + c2);
                assert forall|i: int| 0 <= i < c1 + c2 - 1 implies report.signals@[i] == Some(
                    true,
                ) by {
                    if i < c1 {
                        assert(report.signals@[i] == s1[i]);
                    } else {
                        assert(report.signals@[i] == s2[i - c1]);
                    }
                }
                assert(report.signals@[c1 + c2 - 1] == s2[c2 - 1]);
            }
            return report;
        }
        let (c3, go3, g3) = run_phase(&self.after, req, res);
        let ghost s3 = g3@;
        let status = if go3 {
            DispatchStatus::Completed
        } else {
            DispatchStatus::Terminated
        };
        let report = DispatchReport {
            stages_run: c1 + c2 + c3,
            status,
            signals: Ghost(s1 + s2 + s3),
        };
        proof {
            let s = s1 + s2 + s3;
            assert(s.len() == c1 + c2 + c3);
            assert forall|i: int| 0 <= i < c1 + c2 + c3 - 1 implies s[i] == Some(true) by {
                if i < c1 {
                    assert(s[i] == s1[i]);
                } else if i < c1 + c2 {
                    assert(s[i] == s2[i - c1]);
                } else {
                    assert(s[i] == s3[i - c1 - c2]);
                }
            }
            if go3 {
                if self.total_stages() > 0 {
                    let last = c1 + c2 + c3 - 1;
                    if c3 > 0 {
                        assert(s[last] == s3[c3 - 1]);
                    } else if c2 > 0 {
                        assert(s[last] == s2[c2 - 1]);
                    } else {
                        assert(s[last] == s1[c1 - 1]);
                    }
                }
            } else {
                assert(s[c1 + c2 + c3 - 1] == s3[c3 - 1]);
            }
        }
        report
    }
}

} // verus!
