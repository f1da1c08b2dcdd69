//! The diff half of the reconciliation engine: given the zone snapshot,
//! the configured names and the observed addresses, compute the plan of
//! actions that brings the zone in step.
//!
//! For each configured name and each enabled address family the engine
//! scans the snapshot for the first record with a matching
//! `(name, type)` pair; a missing record yields a `Create`, a record
//! whose target already equals the desired address yields a `NoOp`, and
//! any other target yields a `Replace` of that record.  Later records
//! with the same `(name, type)` pair are never consulted.

use vstd::prelude::*;

use crate::record::{DnsRecord, RecordType, record_matches, record_matches_exec};

verus! {

/// One step of a reconciliation plan.
///
/// A `Replace` names the record to remove by id; it is carried out as a
/// delete of that record followed by a create of the desired one.
#[derive(Debug, Clone, PartialEq)]
pub enum Action {
    NoOp { name: String, rtype: RecordType },
    Create { name: String, rtype: RecordType, ip: String },
    Replace { id: u64, name: String, rtype: RecordType, ip: String },
}

/// The address family an action is about.
pub open spec fn action_rtype(a: Action) -> RecordType {
    match a {
        Action::NoOp { rtype, .. } => rtype,
        Action::Create { rtype, .. } => rtype,
        Action::Replace { rtype, .. } => rtype,
    }
}

/// The index of the first record answering for `(name, t)`, if any.
pub open spec fn first_match(records: Seq<DnsRecord>, name: String, t: RecordType) -> Option<int>
    decreases records.len(),
{
    if records.len() == 0 {
        None
    } else if record_matches(records[0], name, t) {
        Some(0int)
    } else {
        match first_match(records.drop_first(), name, t) {
            None => None,
            Some(i) => Some(i + 1),
        }
    }
}

/// What `first_match` returns is indeed the first match: a matching index
/// preceded only by non-matching records, or nothing when no record matches.
pub proof fn lemma_first_match_properties(records: Seq<DnsRecord>, name: String, t: RecordType)
    ensures
        match first_match(records, name, t) {
            Some(i) => 0 <= i < records.len() && record_matches(records[i], name, t)
                && (forall|j: int| 0 <= j < i ==> !record_matches(records[j], name, t)),
            None => forall|j: int|
                0 <= j < records.len() ==> !record_matches(records[j], name, t),
        },
    decreases records.len(),
{
    if records.len() > 0 && !record_matches(records[0], name, t) {
        let rest = records.drop_first();
        lemma_first_match_properties(rest, name, t);
        match first_match(rest, name, t) {
            Some(i) => {
                assert(records[i + 1] == rest[i]);
                assert forall|j: int| 0 <= j < i + 1 implies !record_matches(
                    records[j],
                    name,
                    t,
                ) by {
                    if j > 0 {
                        assert(rest[j - 1] == records[j]);
                    }
                }
            },
            None => {
                assert forall|j: int| 0 <= j < records.len() implies !record_matches(
                    records[j],
                    name,
                    t,
                ) by {
                    if j > 0 {
                        assert(rest[j - 1] == records[j]);
                    }
                }
            },
        }
    }
}

/// A matching index with no earlier match is what `first_match` returns.
proof fn lemma_first_match_is(records: Seq<DnsRecord>, name: String, t: RecordType, i: int)
    requires
        0 <= i < records.len(),
        record_matches(records[i], name, t),
        forall|j: int| 0 <= j < i ==> !record_matches(records[j], name, t),
    ensures
        first_match(records, name, t) == Some(i),
    decreases i,
{
    if i > 0 {
        assert(!record_matches(records[0], name, t));
        assert(records.drop_first()[i - 1] == records[i]);
        assert(forall|j: int|
            0 <= j < i - 1 ==> records.drop_first()[j] == records[j + 1]);
        lemma_first_match_is(records.drop_first(), name, t, i - 1);
    }
}

/// When no record matches, `first_match` finds nothing.
proof fn lemma_first_match_absent(records: Seq<DnsRecord>, name: String, t: RecordType)
    requires
        forall|j: int| 0 <= j < records.len() ==> !record_matches(records[j], name, t),
    ensures
        first_match(records, name, t) is None,
    decreases records.len(),
{
    if records.len() > 0 {
        assert(forall|j: int|
            0 <= j < records.drop_first().len() ==> records.drop_first()[j] == records[j + 1]);
        lemma_first_match_absent(records.drop_first(), name, t);
    }
}

/// Find the first record of the snapshot answering for `(name, t)`.
pub fn find_first(records: &Vec<DnsRecord>, name: &String, t: RecordType) -> (r: Option<usize>)
    ensures
        match r {
            Some(i) => i < records@.len() && first_match(records@, *name, t) == Some(i as int),
            None => first_match(records@, *name, t) is None,
        },
{
    let mut i: usize = 0;
    while i < records.len()
        invariant
            i <= records@.len(),
            forall|j: int| 0 <= j < i ==> !record_matches(records@[j], *name, t),
        decreases records@.len() - i,
    {
        if record_matches_exec(&records[i], name, t) {
            proof {
                lemma_first_match_is(records@, *name, t, i as int);
            }
            return Some(i);
        }
        i = i + 1;
    }
    proof {
        lemma_first_match_absent(records@, *name, t);
    }
    None
}

/// The action that brings `(name, t)` to `ip`, against this snapshot:
/// create when absent, nothing when already exact, replace otherwise.
pub open spec fn action_for(records: Seq<DnsRecord>, name: String, t: RecordType, ip: String) -> Action {
    match first_match(records, name, t) {
        None => Action::Create { name: name, rtype: t, ip: ip },
        Some(i) => if records[i].target@ == ip@ {
            Action::NoOp { name: name, rtype: t }
        } else {
            Action::Replace { id: records[i].id, name: name, rtype: t, ip: ip }
        },
    }
}

/// Compute the action for one `(name, t)` binding.
pub fn plan_action(records: &Vec<DnsRecord>, name: &String, t: RecordType, ip: &String) -> (r: Action)
    ensures
        r == action_for(records@, *name, t, *ip),
{
    match find_first(records, name, t) {
        None => Action::Create { name: name.clone(), rtype: t, ip: ip.clone() },
        Some(i) => {
            if records[i].target == *ip {
                Action::NoOp { name: name.clone(), rtype: t }
            } else {
                Action::Replace { id: records[i].id, name: name.clone(), rtype: t, ip: ip.clone() }
            }
        },
    }
}

/// The one or two actions for a configured name: the A binding always,
/// the AAAA binding only when an IPv6 address is at hand this cycle.
pub open spec fn name_actions(
    records: Seq<DnsRecord>,
    name: String,
    ipv4: String,
    ipv6: Option<String>,
) -> Seq<Action> {
    match ipv6 {
        None => seq![action_for(records, name, RecordType::A, ipv4)],
        Some(ip6) => seq![
            action_for(records, name, RecordType::A, ipv4),
            action_for(records, name, RecordType::Aaaa, ip6),
        ],
    }
}

/// The whole plan of one cycle: the actions of every configured name,
/// in configuration order.
pub open spec fn plan_for(
    records: Seq<DnsRecord>,
    names: Seq<String>,
    ipv4: String,
    ipv6: Option<String>,
) -> Seq<Action>
    decreases names.len(),
{
    if names.len() == 0 {
        Seq::empty()
    } else {
        name_actions(records, names[0], ipv4, ipv6) + plan_for(
            records,
            names.drop_first(),
            ipv4,
            ipv6,
        )
    }
}

proof fn lemma_plan_for_push(
    records: Seq<DnsRecord>,
    names: Seq<String>,
    name: String,
    ipv4: String,
    ipv6: Option<String>,
)
    ensures
        plan_for(records, names.push(name), ipv4, ipv6) == plan_for(records, names, ipv4, ipv6)
            + name_actions(records, name, ipv4, ipv6),
    decreases names.len(),
{
    let pushed = names.push(name);
    if names.len() == 0 {
        assert(pushed.drop_first() =~= Seq::<String>::empty());
        assert(names =~= Seq::<String>::empty());
        assert(plan_for(records, Seq::<String>::empty(), ipv4, ipv6) == Seq::<Action>::empty());
        assert(plan_for(records, pushed, ipv4, ipv6) == name_actions(records, name, ipv4, ipv6)
            + Seq::<Action>::empty());
        assert(plan_for(records, pushed, ipv4, ipv6) =~= plan_for(records, names, ipv4, ipv6)
            + name_actions(records, name, ipv4, ipv6));
    } else {
        lemma_plan_for_push(records, names.drop_first(), name, ipv4, ipv6);
        assert(pushed.drop_first() =~= names.drop_first().push(name));
        assert(pushed[0] == names[0]);
        let a = name_actions(records, names[0], ipv4, ipv6);
        let b = plan_for(records, names.drop_first(), ipv4, ipv6);
        let c = name_actions(records, name, ipv4, ipv6);
        assert(plan_for(records, pushed, ipv4, ipv6) == a + (b + c));
        assert(a + (b + c) =~= (a + b) + c);
    }
}

/// Compute the reconciliation plan for one cycle: the zone snapshot, the
/// configured names, the current IPv4 address in text form, and the
/// current IPv6 address when one is at hand.
pub fn compute_plan(
    records: &Vec<DnsRecord>,
    names: &Vec<String>,
    ipv4: &String,
    ipv6: &Option<String>,
) -> (r: Vec<Action>)
    ensures
        r@ == plan_for(records@, names@, *ipv4, *ipv6),
{
    let mut r: Vec<Action> = Vec::new();
    let mut i: usize = 0;
    while i < names.len()
        invariant
            i <= names@.len(),
            r@ == plan_for(records@, names@.take(i as int), *ipv4, *ipv6),
        decreases names@.len() - i,
    {
        let ghost prefix = plan_for(records@, names@.take(i as int), *ipv4, *ipv6);
        let name = &names[i];
        r.push(plan_action(records, name, RecordType::A, ipv4));
        match ipv6 {
            None => {},
            Some(ip6) => {
                r.push(plan_action(records, name, RecordType::Aaaa, ip6));
            },
        }
        proof {
            lemma_plan_for_push(records@, names@.take(i as int), names@[i as int], *ipv4, *ipv6);
            assert(names@.take(i as int + 1) =~= names@.take(i as int).push(names@[i as int]));
            assert(r@ =~= prefix + name_actions(records@, names@[i as int], *ipv4, *ipv6));
        }
        i = i + 1;
    }
    proof {
        assert(names@.take(names@.len() as int) =~= names@);
    }
    r
}

/// `(name, t)` is already converged: its first matching record carries
/// exactly the desired address.
pub open spec fn converged(records: Seq<DnsRecord>, name: String, t: RecordType, ip: String) -> bool {
    match first_match(records, name, t) {
        Some(i) => records[i].target@ == ip@,
        None => false,
    }
}

/// When every configured `(name, type)` binding already carries the
/// current address, the plan consists of `NoOp` actions alone.
pub proof fn lemma_converged_plan_all_noop(
    records: Seq<DnsRecord>,
    names: Seq<String>,
    ipv4: String,
    ipv6: Option<String>,
)
    requires
        forall|k: int| 0 <= k < names.len() ==> converged(records, names[k], RecordType::A, ipv4),
        ipv6 is Some ==> forall|k: int|
            0 <= k < names.len() ==> converged(records, names[k], RecordType::Aaaa, ipv6->0),
    ensures
        forall|k: int|
            0 <= k < plan_for(records, names, ipv4, ipv6).len() ==> plan_for(
                records,
                names,
                ipv4,
                ipv6,
            )[k] is NoOp,
    decreases names.len(),
{
    if names.len() > 0 {
        assert(forall|k: int|
            0 <= k < names.drop_first().len() ==> names.drop_first()[k] == names[k + 1]);
        lemma_converged_plan_all_noop(records, names.drop_first(), ipv4, ipv6);
        let head = name_actions(records, names[0], ipv4, ipv6);
        let tail = plan_for(records, names.drop_first(), ipv4, ipv6);
        assert(forall|k: int| 0 <= k < head.len() ==> head[k] is NoOp);
        assert(forall|k: int|
            0 <= k < plan_for(records, names, ipv4, ipv6).len() ==> plan_for(
                records,
                names,
                ipv4,
                ipv6,
            )[k] == if k < head.len() {
                head[k]
            } else {
                tail[k - head.len()]
            });
    }
}

/// Against an empty zone snapshot, one configured name with IPv4 alone
/// yields exactly one `Create` of its A record.
pub proof fn lemma_create_when_absent(name: String, ipv4: String)
    ensures
        plan_for(Seq::empty(), seq![name], ipv4, None) =~= seq![
            Action::Create { name: name, rtype: RecordType::A, ip: ipv4 },
        ],
{
    let records = Seq::<DnsRecord>::empty();
    let names = seq![name];
    assert(names.drop_first() =~= Seq::<String>::empty());
    assert(plan_for(records, Seq::<String>::empty(), ipv4, None) == Seq::<Action>::empty());
    assert(first_match(records, name, RecordType::A) is None);
    assert(plan_for(records, names, ipv4, None) == name_actions(records, name, ipv4, None)
        + Seq::<Action>::empty());
}

/// A zone record whose target has drifted from the current address yields
/// exactly one `Replace` of that record.
pub proof fn lemma_replace_on_drift(records: Seq<DnsRecord>, name: String, ipv4: String, i: int)
    requires
        first_match(records, name, RecordType::A) == Some(i),
        records[i].target@ != ipv4@,
    ensures
        plan_for(records, seq![name], ipv4, None) =~= seq![
            Action::Replace { id: records[i].id, name: name, rtype: RecordType::A, ip: ipv4 },
        ],
{
    lemma_first_match_properties(records, name, RecordType::A);
    let names = seq![name];
    assert(names.drop_first() =~= Seq::<String>::empty());
    assert(plan_for(records, Seq::<String>::empty(), ipv4, None) == Seq::<Action>::empty());
    assert(plan_for(records, names, ipv4, None) == name_actions(records, name, ipv4, None)
        + Seq::<Action>::empty());
}

/// With no IPv6 address at hand the plan still carries the correct A
/// action of every configured name, and nothing else: no AAAA action is
/// emitted and no other binding is disturbed.
pub proof fn lemma_ipv6_best_effort(records: Seq<DnsRecord>, names: Seq<String>, ipv4: String)
    ensures
        plan_for(records, names, ipv4, None).len() == names.len(),
        forall|k: int|
            0 <= k < names.len() ==> plan_for(records, names, ipv4, None)[k] == action_for(
                records,
                names[k],
                RecordType::A,
                ipv4,
            ),
        forall|k: int|
            0 <= k < names.len() ==> action_rtype(plan_for(records, names, ipv4, None)[k])
                == RecordType::A,
    decreases names.len(),
{
    if names.len() > 0 {
        assert(forall|k: int|
            0 <= k < names.drop_first().len() ==> names.drop_first()[k] == names[k + 1]);
        lemma_ipv6_best_effort(records, names.drop_first(), ipv4);
    }
}

/// A second record with the same `(name, type)` pair is never consulted:
/// the first match stands no later than any match, and the action is
/// unchanged whatever the later record holds.
pub proof fn lemma_duplicate_record_ignored(
    records: Seq<DnsRecord>,
    name: String,
    t: RecordType,
    ip: String,
    i: int,
    j: int,
    other: DnsRecord,
)
    requires
        0 <= i < j < records.len(),
        record_matches(records[i], name, t),
        record_matches(records[j], name, t),
    ensures
        first_match(records, name, t) is Some,
        first_match(records, name, t)->0 <= i,
        action_for(records.update(j, other), name, t, ip) == action_for(records, name, t, ip),
{
    lemma_first_match_properties(records, name, t);
    let k = first_match(records, name, t)->0;
    assert(k <= i);
    let updated = records.update(j, other);
    assert(updated[k] == records[k]);
    assert(forall|m: int| 0 <= m < k ==> updated[m] == records[m]);
    lemma_first_match_is(updated, name, t, k);
}

} // verus!
