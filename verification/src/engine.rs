//! The execution half of the reconciliation engine.
//!
//! The provider offers no atomic update, so a `Replace` is carried out as
//! a delete of the existing record followed by a create of the desired
//! one, each step failing on its own.  `PlanExecution` walks a plan one
//! store call at a time: the caller asks which call is pending, performs
//! it, and reports the outcome; the machine advances and keeps one result
//! per action.  A failed call ends only its own action — every later
//! action is still attempted.

use vstd::prelude::*;

use crate::plan::{Action, compute_plan, plan_for};
use crate::record::{DnsRecord, RecordType, StoreError};

verus! {

/// The fixed time-to-live given to every record the reconciler creates.
pub const RECORD_TTL_SECONDS: u32 = 300;

/// One call into the zone record store.
#[derive(Debug, Clone, PartialEq)]
pub enum StoreCall {
    DeleteRecord { id: u64 },
    CreateRecord { name: String, rtype: RecordType, ip: String, ttl: u32 },
}

/// The outcome of one action of the plan.
///
/// After `DeleteFailed` the existing record is still in the zone; after
/// `CreateFailed` on a replace the record is absent until a later cycle
/// creates it afresh.  Neither ends the cycle.
#[derive(Debug, Clone, PartialEq)]
pub enum ActionResult {
    Unchanged,
    Applied,
    DeleteFailed { error: StoreError },
    CreateFailed { error: StoreError },
}

/// Which results an action can end in.
pub open spec fn result_consistent(a: Action, r: ActionResult) -> bool {
    match a {
        Action::NoOp { .. } => r is Unchanged,
        Action::Create { .. } => r is Applied || r is CreateFailed,
        Action::Replace { .. } => r is Applied || r is DeleteFailed || r is CreateFailed,
    }
}

/// The first index at or after `i` whose action asks for a store call,
/// or the plan's end.
pub open spec fn skip_noops(plan: Seq<Action>, i: int) -> int
    decreases plan.len() - i,
{
    if i < 0 || i >= plan.len() {
        i
    } else if plan[i] is NoOp {
        skip_noops(plan, i + 1)
    } else {
        i
    }
}

/// Everything `skip_noops` passes over is a `NoOp`, and it stops at the
/// first action that is not one.
pub proof fn lemma_skip_noops_bounds(plan: Seq<Action>, i: int)
    requires
        0 <= i <= plan.len(),
    ensures
        i <= skip_noops(plan, i) <= plan.len(),
        forall|k: int| i <= k < skip_noops(plan, i) ==> plan[k] is NoOp,
        skip_noops(plan, i) < plan.len() ==> !(plan[skip_noops(plan, i)] is NoOp),
    decreases plan.len() - i,
{
    if i < plan.len() && plan[i] is NoOp {
        lemma_skip_noops_bounds(plan, i + 1);
    }
}

/// A run of `Unchanged` results, one per passed-over `NoOp`.
pub open spec fn unchanged_fill(n: int) -> Seq<ActionResult> {
    Seq::new(n as nat, |k: int| ActionResult::Unchanged)
}

/// The store call an action asks for.  A replace asks first for the
/// delete of the existing record; once that has succeeded
/// (`mid_replace`), for the create of the desired one.
pub open spec fn call_for(a: Action, mid_replace: bool) -> Option<StoreCall> {
    match a {
        Action::NoOp { .. } => None,
        Action::Create { name, rtype, ip } => Some(
            StoreCall::CreateRecord { name: name, rtype: rtype, ip: ip, ttl: RECORD_TTL_SECONDS },
        ),
        Action::Replace { id, name, rtype, ip } => if !mid_replace {
            Some(StoreCall::DeleteRecord { id: id })
        } else {
            Some(
                StoreCall::CreateRecord {
                    name: name,
                    rtype: rtype,
                    ip: ip,
                    ttl: RECORD_TTL_SECONDS,
                },
            )
        },
    }
}

/// Walks a reconciliation plan one store call at a time.
///
/// `next_action` is the action being executed; everything before it is
/// finished and has its result in `results`.  `mid_replace` marks a
/// replace whose delete has succeeded and whose create is still owed.
#[derive(Debug)]
pub struct PlanExecution {
    pub plan: Vec<Action>,
    pub next_action: usize,
    pub mid_replace: bool,
    pub results: Vec<ActionResult>,
}

impl PlanExecution {
    /// Every finished action has exactly one, consistent result, and the
    /// current action is one that asks for a call.
    pub open spec fn inv(self) -> bool {
        &&& self.next_action <= self.plan@.len()
        &&& self.results@.len() == self.next_action as int
        &&& (self.next_action < self.plan@.len() ==> !(self.plan@[
            self.next_action as int
        ] is NoOp))
        &&& (self.mid_replace ==> self.next_action < self.plan@.len() && self.plan@[
            self.next_action as int
        ] is Replace)
        &&& forall|k: int|
            0 <= k < self.next_action ==> result_consistent(
                self.plan@[k],
                #[trigger] self.results@[k],
            )
    }

    /// No action is left to execute.
    pub open spec fn spec_done(self) -> bool {
        self.next_action >= self.plan@.len()
    }

    /// The store call owed next, if any.
    pub open spec fn spec_pending(self) -> Option<StoreCall> {
        if self.spec_done() {
            None
        } else {
            call_for(self.plan@[self.next_action as int], self.mid_replace)
        }
    }

    /// How one reported outcome moves the machine: a successful delete
    /// turns a replace into its owed create; any other outcome finishes
    /// the current action with its result.
    pub open spec fn steps_to(pre: Self, outcome: Result<(), StoreError>, post: Self) -> bool {
        &&& post.plan == pre.plan
        &&& if pre.plan@[pre.next_action as int] is Replace && !pre.mid_replace {
            match outcome {
                Ok(_) => post.next_action == pre.next_action && post.mid_replace
                    && post.results == pre.results,
                Err(e) => Self::completes(pre, ActionResult::DeleteFailed { error: e }, post),
            }
        } else {
            match outcome {
                Ok(_) => Self::completes(pre, ActionResult::Applied, post),
                Err(e) => Self::completes(pre, ActionResult::CreateFailed { error: e }, post),
            }
        }
    }

    /// The current action is finished with result `r`; execution stands
    /// at the next action that asks for a call, every passed-over `NoOp`
    /// reported `Unchanged`.
    pub open spec fn completes(pre: Self, r: ActionResult, post: Self) -> bool {
        let next = skip_noops(pre.plan@, pre.next_action + 1);
        &&& !post.mid_replace
        &&& post.next_action == next
        &&& post.results@ == pre.results@.push(r) + unchanged_fill(next - (pre.next_action + 1))
    }

    fn advance(&mut self)
        requires
            old(self).next_action <= old(self).plan@.len(),
            old(self).results@.len() == old(self).next_action as int,
            !old(self).mid_replace,
            forall|k: int|
                0 <= k < old(self).next_action ==> result_consistent(
                    old(self).plan@[k],
                    #[trigger] old(self).results@[k],
                ),
        ensures
            final(self).inv(),
            final(self).plan == old(self).plan,
            !final(self).mid_replace,
            final(self).next_action as int == skip_noops(
                old(self).plan@,
                old(self).next_action as int,
            ),
            final(self).results@ == old(self).results@ + unchanged_fill(
                skip_noops(old(self).plan@, old(self).next_action as int) - old(
                    self,
                ).next_action,
            ),
    {
        let ghost pre_plan = self.plan;
        let ghost p = self.plan@;
        let ghost start = self.next_action as int;
        let ghost pre_results = self.results@;
        while self.next_action < self.plan.len() && action_is_noop(&self.plan[self.next_action])
            invariant
                self.plan == pre_plan,
                self.plan@ == p,
                !self.mid_replace,
                start <= self.next_action as int <= p.len(),
                skip_noops(p, start) == skip_noops(p, self.next_action as int),
                self.results@ == pre_results + unchanged_fill(self.next_action - start),
                pre_results.len() == start,
                forall|k: int|
                    0 <= k < self.next_action ==> result_consistent(
                        p[k],
                        #[trigger] self.results@[k],
                    ),
            decreases p.len() - self.next_action,
        {
            let ghost n = self.next_action as int;
            self.results.push(ActionResult::Unchanged);
            self.next_action = self.next_action + 1;
            proof {
                assert(skip_noops(p, n) == skip_noops(p, n + 1));
                assert(self.results@ =~= pre_results + unchanged_fill(n + 1 - start));
            }
        }
        proof {
            assert(skip_noops(p, self.next_action as int) == self.next_action as int);
        }
    }

    /// Start executing a plan.  Leading `NoOp` actions are already
    /// reported `Unchanged`; a plan of nothing but `NoOp` actions is
    /// finished at once, with no store call ever owed.
    pub fn new(plan: Vec<Action>) -> (s: Self)
        ensures
            s.inv(),
            s.plan@ == plan@,
            !s.mid_replace,
            s.next_action as int == skip_noops(plan@, 0),
            s.results@ == unchanged_fill(skip_noops(plan@, 0)),
    {
        let mut s = PlanExecution {
            plan,
            next_action: 0,
            mid_replace: false,
            results: Vec::new(),
        };
        s.advance();
        proof {
            assert(s.results@ =~= unchanged_fill(skip_noops(s.plan@, 0)));
        }
        s
    }

    /// The store call owed next: `None` exactly when execution is done.
    pub fn pending_call(&self) -> (r: Option<StoreCall>)
        requires
            self.inv(),
        ensures
            r == self.spec_pending(),
    {
        if self.next_action >= self.plan.len() {
            return None;
        }
        match &self.plan[self.next_action] {
            Action::NoOp { .. } => None,
            Action::Create { name, rtype, ip } => Some(
                StoreCall::CreateRecord {
                    name: name.clone(),
                    rtype: *rtype,
                    ip: ip.clone(),
                    ttl: RECORD_TTL_SECONDS,
                },
            ),
            Action::Replace { id, name, rtype, ip } => {
                if !self.mid_replace {
                    Some(StoreCall::DeleteRecord { id: *id })
                } else {
                    Some(
                        StoreCall::CreateRecord {
                            name: name.clone(),
                            rtype: *rtype,
                            ip: ip.clone(),
                            ttl: RECORD_TTL_SECONDS,
                        },
                    )
                }
            },
        }
    }

    /// Report the outcome of the pending call and move on.  An error is
    /// recorded against the current action alone; execution then stands
    /// at the next action that asks for a call.
    pub fn record_outcome(&mut self, outcome: Result<(), StoreError>)
        requires
            old(self).inv(),
            !old(self).spec_done(),
        ensures
            final(self).inv(),
            Self::steps_to(*old(self), outcome, *final(self)),
    {
        let total = self.plan.len();
        let replace_delete = !self.mid_replace && action_is_replace(
            &self.plan[self.next_action],
        );
        proof {
            assert(self.next_action < total);
        }
        match outcome {
            Ok(_) => {
                if replace_delete {
                    self.mid_replace = true;
                } else {
                    self.results.push(ActionResult::Applied);
                    self.next_action = self.next_action + 1;
                    self.mid_replace = false;
                    self.advance();
                }
            },
            Err(e) => {
                if replace_delete {
                    self.results.push(ActionResult::DeleteFailed { error: e });
                } else {
                    self.results.push(ActionResult::CreateFailed { error: e });
                }
                self.next_action = self.next_action + 1;
                self.mid_replace = false;
                self.advance();
            },
        }
    }

    /// Whether every action of the plan has been executed.
    pub fn is_done(&self) -> (r: bool)
        ensures
            r == self.spec_done(),
    {
        self.next_action >= self.plan.len()
    }
}

fn action_is_noop(a: &Action) -> (b: bool)
    ensures
        b == (*a is NoOp),
{
    match a {
        Action::NoOp { .. } => true,
        _ => false,
    }
}

fn action_is_replace(a: &Action) -> (b: bool)
    ensures
        b == (*a is Replace),
{
    match a {
        Action::Replace { .. } => true,
        _ => false,
    }
}

/// A replace deletes before it creates: at a replace the owed call is the
/// delete of the existing record, and only once its success is reported
/// does the machine owe the create of the desired one.
pub proof fn lemma_replace_deletes_before_create(s: PlanExecution, t: PlanExecution)
    requires
        s.inv(),
        !s.spec_done(),
        s.plan@[s.next_action as int] is Replace,
        !s.mid_replace,
        PlanExecution::steps_to(s, Ok(()), t),
    ensures
        s.plan@[s.next_action as int] matches Action::Replace { id, name, rtype, ip }
            && s.spec_pending() == Some(StoreCall::DeleteRecord { id })
            && t.spec_pending() == Some(
            StoreCall::CreateRecord { name, rtype, ip, ttl: RECORD_TTL_SECONDS },
        ),
{
}

/// Partial-failure isolation: a failed call finishes the current action
/// with its own failure result, leaves every earlier result untouched,
/// and execution stands ready at the very next action that asks for a
/// call — later bindings are still attempted.
pub proof fn lemma_failure_isolation(pre: PlanExecution, e: StoreError, post: PlanExecution)
    requires
        pre.inv(),
        !pre.spec_done(),
        PlanExecution::steps_to(pre, Err(e), post),
    ensures
        post.results@.len() > pre.next_action,
        post.results@[pre.next_action as int] is DeleteFailed || post.results@[
            pre.next_action as int
        ] is CreateFailed,
        forall|k: int| 0 <= k < pre.next_action ==> post.results@[k] == pre.results@[k],
        post.next_action > pre.next_action,
        forall|k: int| pre.next_action < k < post.next_action ==> pre.plan@[k] is NoOp,
        post.next_action < pre.plan@.len() ==> post.spec_pending() is Some,
{
    lemma_skip_noops_bounds(pre.plan@, pre.next_action + 1);
    assert(post.results@[pre.next_action as int] == pre.results@.push(
        if pre.plan@[pre.next_action as int] is Replace && !pre.mid_replace {
            ActionResult::DeleteFailed { error: e }
        } else {
            ActionResult::CreateFailed { error: e }
        },
    )[pre.next_action as int]);
}

/// When execution is done, every action of the plan has exactly one
/// result, consistent with what the action was.
pub proof fn lemma_reports_complete(s: PlanExecution)
    requires
        s.inv(),
        s.spec_done(),
    ensures
        s.results@.len() == s.plan@.len(),
        forall|k: int|
            0 <= k < s.plan@.len() ==> result_consistent(s.plan@[k], #[trigger] s.results@[k]),
{
}

/// A plan of `NoOp` actions alone is finished the moment execution
/// starts: no store call is ever owed for it.
pub proof fn lemma_noop_plan_makes_no_calls(plan: Seq<Action>)
    requires
        forall|k: int| 0 <= k < plan.len() ==> plan[k] is NoOp,
    ensures
        skip_noops(plan, 0) == plan.len(),
{
    lemma_skip_noops_bounds(plan, 0);
    if skip_noops(plan, 0) < plan.len() {
        assert(!(plan[skip_noops(plan, 0)] is NoOp));
    }
}

/// Why a whole cycle can do nothing: without an IPv4 address there is no
/// anchor to reconcile against, and without the zone snapshot there is
/// nothing to diff.  Either way the cycle is retried later.
#[derive(Debug, Clone, PartialEq)]
pub enum CycleError {
    Ipv4Unavailable,
    ZoneList { error: StoreError },
}

/// Decide one reconciliation cycle from what this cycle observed.
///
/// No IPv4 address aborts the cycle outright; a failed zone listing
/// aborts it with that error; otherwise the plan is computed, with the
/// AAAA bindings included only when IPv6 is enabled and an address was
/// observed — a missing IPv6 address costs only the AAAA bindings.
pub fn plan_cycle(
    ipv4: &Option<String>,
    ipv6_enabled: bool,
    ipv6: &Option<String>,
    list: &Result<Vec<DnsRecord>, StoreError>,
    names: &Vec<String>,
) -> (r: Result<Vec<Action>, CycleError>)
    ensures
        match r {
            Ok(p) => *ipv4 matches Some(ip4) && *list matches Ok(records) && p@ == plan_for(
                records@,
                names@,
                ip4,
                if ipv6_enabled {
                    *ipv6
                } else {
                    None
                },
            ),
            Err(e) => match e {
                CycleError::Ipv4Unavailable => ipv4 is None,
                CycleError::ZoneList { error } => ipv4 is Some && (*list matches Err(le)
                    && error == le),
            },
        },
{
    match ipv4 {
        None => Err(CycleError::Ipv4Unavailable),
        Some(ip4) => match list {
            Err(le) => Err(CycleError::ZoneList { error: duplicate_store_error(le) }),
            Ok(records) => {
                let ip6: Option<String> = if ipv6_enabled {
                    match ipv6 {
                        Some(v) => Some(v.clone()),
                        None => None,
                    }
                } else {
                    None
                };
                Ok(compute_plan(records, names, ip4, &ip6))
            },
        },
    }
}

fn duplicate_store_error(e: &StoreError) -> (r: StoreError)
    ensures
        r == *e,
{
    match e {
        StoreError::Api { status, body } => StoreError::Api {
            status: *status,
            body: body.clone(),
        },
        StoreError::Transport { cause } => StoreError::Transport { cause: cause.clone() },
    }
}

} // verus!
