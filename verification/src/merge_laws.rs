use vstd::prelude::*;

use crate::event::{duration_in_range, event_key, field_value, key_values, Event};
use crate::merge::{
    group_duration, group_openers, lemma_absent_group, lemma_openers_valid, lemma_push_event,
    lemma_group_total_in_range, merge_within_limits, merged_event, merged_events, opens_group,
};

verus! {

/// Every event that has a merge key shares it with some group opener.
proof fn lemma_key_has_opener(s: Seq<Event>, keys: Seq<Seq<char>>, j: int)
    requires
        0 <= j < s.len(),
        event_key(s[j], keys) is Some,
    ensures
        exists|i: int|
            0 <= i < group_openers(s, keys).len() && event_key(
                s[#[trigger] group_openers(s, keys)[i]],
                keys,
            ) == event_key(s[j], keys),
    decreases s.len(), j,
{
    let p = s.drop_last();
    let n = s.len() - 1;
    lemma_push_event(p, s.last(), keys);
    assert(p.push(s.last()) =~= s);
    if j < n {
        assert(p[j] == s[j]);
        lemma_key_has_opener(p, keys, j);
        let i = choose|i: int|
            0 <= i < group_openers(p, keys).len() && event_key(
                p[#[trigger] group_openers(p, keys)[i]],
                keys,
            ) == event_key(p[j], keys);
        lemma_openers_valid(p, keys);
        assert(p[group_openers(p, keys)[i]] == s[group_openers(s, keys)[i]]);
    } else if opens_group(s, keys, n) {
        assert(group_openers(s, keys)[group_openers(p, keys).len() as int] == n);
    } else {
        let j2 = choose|j2: int| 0 <= j2 < n && event_key(s[j2], keys) == event_key(s[n], keys);
        lemma_key_has_opener(s, keys, j2);
    }
}

/// Merging leaves no two events with the same merge key, and every merged
/// event has one: the transform merges all the events that share a key,
/// neighbouring or not.
pub proof fn merged_keys_are_distinct(events: Seq<Event>, keys: Seq<Seq<char>>)
    ensures
        forall|i: int|
            0 <= i < merged_events(events, keys).len() ==> (#[trigger] event_key(
                merged_events(events, keys)[i],
                keys,
            )) is Some,
        forall|i: int, j: int|
            0 <= i < j < merged_events(events, keys).len() ==> #[trigger] event_key(
                merged_events(events, keys)[i],
                keys,
            ) != #[trigger] event_key(merged_events(events, keys)[j], keys),
{
    lemma_openers_valid(events, keys);
    let ops = group_openers(events, keys);
    assert forall|i: int, j: int|
        0 <= i < j < merged_events(events, keys).len() implies #[trigger] event_key(
        merged_events(events, keys)[i],
        keys,
    ) != #[trigger] event_key(merged_events(events, keys)[j], keys) by {
        assert(ops[i] < ops[j]);
        assert(opens_group(events, keys, ops[j]));
    }
}

/// Every event that has all the keys is represented in the merge by an
/// event with the same merge key.
pub proof fn merged_covers_every_keyed_event(events: Seq<Event>, keys: Seq<Seq<char>>, j: int)
    requires
        keys.len() > 0,
        0 <= j < events.len(),
        event_key(events[j], keys) is Some,
    ensures
        exists|i: int|
            0 <= i < merged_events(events, keys).len() && #[trigger] event_key(
                merged_events(events, keys)[i],
                keys,
            ) == event_key(events[j], keys),
{
    lemma_key_has_opener(events, keys, j);
    let i = choose|i: int|
        0 <= i < group_openers(events, keys).len() && event_key(
            events[#[trigger] group_openers(events, keys)[i]],
            keys,
        ) == event_key(events[j], keys);
    assert(event_key(merged_events(events, keys)[i], keys) == event_key(events[j], keys));
}

/// Each merged event carries the timestamp and data of the first event
/// with its merge key, has no id and belongs to team 1.
pub proof fn merged_takes_first_event(events: Seq<Event>, keys: Seq<Seq<char>>, i: int)
    requires
        0 <= i < merged_events(events, keys).len(),
    ensures
        exists|j: int|
            0 <= j < events.len() && event_key(events[j], keys) == event_key(
                merged_events(events, keys)[i],
                keys,
            ) && (forall|m: int|
                0 <= m < j ==> event_key(events[m], keys) != event_key(events[j], keys))
                && merged_events(events, keys)[i].timestamp == events[j].timestamp
                && merged_events(events, keys)[i].data == events[j].data,
        merged_events(events, keys)[i].id is None,
        merged_events(events, keys)[i].team_id == 1,
{
    lemma_openers_valid(events, keys);
    let j = group_openers(events, keys)[i];
    assert(opens_group(events, keys, j));
}


/// The sum of the durations of `s`.
pub open spec fn total_duration(s: Seq<Event>) -> int
    decreases s.len(),
{
    if s.len() == 0 {
        0
    } else {
        total_duration(s.drop_last()) + s.last().duration as int
    }
}

/// The sum of the durations of the events of `s` that have all the keys.
pub open spec fn keyed_duration(s: Seq<Event>, keys: Seq<Seq<char>>) -> int
    decreases s.len(),
{
    if s.len() == 0 {
        0
    } else {
        keyed_duration(s.drop_last(), keys) + if event_key(s.last(), keys) is Some {
            s.last().duration as int
        } else {
            0
        }
    }
}

/// The sum of the group totals of the groups opened by `s[ops[t]]`.
spec fn group_sums(s: Seq<Event>, keys: Seq<Seq<char>>, ops: Seq<int>) -> int
    decreases ops.len(),
{
    if ops.len() == 0 {
        0
    } else {
        group_sums(s, keys, ops.drop_last()) + group_duration(
            s,
            keys,
            event_key(s[ops.last()], keys).unwrap(),
        )
    }
}

/// Indices into `s` whose merge keys are present and pairwise distinct.
spec fn distinct_keyed(s: Seq<Event>, keys: Seq<Seq<char>>, ops: Seq<int>) -> bool {
    &&& forall|t: int| 0 <= t < ops.len() ==> 0 <= #[trigger] ops[t] < s.len()
    &&& forall|t: int| 0 <= t < ops.len() ==> (#[trigger] event_key(s[ops[t]], keys)) is Some
    &&& forall|t: int, u: int|
        0 <= t < u < ops.len() ==> event_key(s[#[trigger] ops[t]], keys) != event_key(
            s[#[trigger] ops[u]],
            keys,
        )
}

/// Adding an event to `s` raises the sum of the groups of `ops` by its
/// duration when one of them has its key, and leaves it otherwise.
proof fn lemma_group_sums_push(s: Seq<Event>, e: Event, keys: Seq<Seq<char>>, ops: Seq<int>)
    requires
        distinct_keyed(s, keys, ops),
    ensures
        group_sums(s.push(e), keys, ops) == group_sums(s, keys, ops) + if exists|t: int|
            0 <= t < ops.len() && event_key(s[#[trigger] ops[t]], keys) == event_key(e, keys) {
            e.duration as int
        } else {
            0
        },
    decreases ops.len(),
{
    if ops.len() > 0 {
        let q = ops.drop_last();
        assert(distinct_keyed(s, keys, q)) by {
            assert forall|t: int| 0 <= t < q.len() implies #[trigger] q[t] == ops[t] by {}
        }
        lemma_group_sums_push(s, e, keys, q);
        lemma_push_event(s, e, keys);
        let last = ops.last();
        assert(s.push(e)[last] == s[last]);
        if exists|t: int| 0 <= t < q.len() && event_key(s[#[trigger] q[t]], keys) == event_key(e, keys) {
            let t = choose|t: int| 0 <= t < q.len() && event_key(s[#[trigger] q[t]], keys) == event_key(e, keys);
            assert(q[t] == ops[t]);
            assert(event_key(s[ops[t]], keys) != event_key(s[ops[ops.len() - 1]], keys));
        }
        if exists|t: int| 0 <= t < ops.len() && event_key(s[#[trigger] ops[t]], keys) == event_key(e, keys) {
            let t = choose|t: int| 0 <= t < ops.len() && event_key(s[#[trigger] ops[t]], keys) == event_key(e, keys);
            if t < q.len() {
                assert(q[t] == ops[t]);
            }
        } else {
            assert forall|t: int| 0 <= t < q.len() implies event_key(s[#[trigger] q[t]], keys) != event_key(e, keys) by {
                assert(q[t] == ops[t]);
            }
        }
    }
}

/// The openers of `s` have distinct, present keys.
proof fn lemma_openers_distinct(s: Seq<Event>, keys: Seq<Seq<char>>)
    ensures
        distinct_keyed(s, keys, group_openers(s, keys)),
{
    lemma_openers_valid(s, keys);
    let ops = group_openers(s, keys);
    assert forall|t: int, u: int| 0 <= t < u < ops.len() implies event_key(s[#[trigger] ops[t]], keys)
        != event_key(s[#[trigger] ops[u]], keys) by {
        assert(opens_group(s, keys, ops[u]));
    }
}

/// The group totals of `s` add up to the durations of its keyed events.
proof fn lemma_group_sums_total(s: Seq<Event>, keys: Seq<Seq<char>>)
    ensures
        group_sums(s, keys, group_openers(s, keys)) == keyed_duration(s, keys),
    decreases s.len(),
{
    if s.len() > 0 {
        let p = s.drop_last();
        let e = s.last();
        let n = p.len() as int;
        assert(p.push(e) =~= s);
        lemma_group_sums_total(p, keys);
        lemma_push_event(p, e, keys);
        lemma_openers_distinct(p, keys);
        let ops = group_openers(p, keys);
        lemma_group_sums_push(p, e, keys, ops);
        if event_key(e, keys) is None {
            assert(!opens_group(s, keys, n));
        } else if opens_group(s, keys, n) {
            let ops2 = ops.push(n);
            assert(ops2.drop_last() =~= ops);
            assert forall|j: int| 0 <= j < p.len() implies event_key(p[j], keys) != Some(
                event_key(e, keys).unwrap(),
            ) by {
                assert(s[j] == p[j]);
            }
            lemma_absent_group(p, keys, event_key(e, keys).unwrap());
            lemma_openers_valid(p, keys);
            assert forall|t: int| 0 <= t < ops.len() implies event_key(p[#[trigger] ops[t]], keys)
                != event_key(e, keys) by {}
        } else {
            let j = choose|j: int| 0 <= j < n && event_key(s[j], keys) == event_key(s[n], keys);
            assert(s[j] == p[j]);
            lemma_key_has_opener(p, keys, j);
        }
    }
}

/// The durations of the merged events for the openers `ops` add up to the
/// totals of their groups.
proof fn lemma_merged_total(s: Seq<Event>, keys: Seq<Seq<char>>, ops: Seq<int>)
    requires
        distinct_keyed(s, keys, ops),
        forall|t: int|
            0 <= t < ops.len() ==> duration_in_range(
                group_duration(s, keys, event_key(s[#[trigger] ops[t]], keys).unwrap()),
            ),
    ensures
        total_duration(ops.map_values(|i: int| merged_event(s, keys, i))) == group_sums(s, keys, ops),
    decreases ops.len(),
{
    if ops.len() > 0 {
        let q = ops.drop_last();
        assert(ops.map_values(|i: int| merged_event(s, keys, i)).drop_last() =~= q.map_values(
            |i: int| merged_event(s, keys, i),
        ));
        assert forall|t: int| 0 <= t < q.len() implies #[trigger] q[t] == ops[t] by {}
        lemma_merged_total(s, keys, q);
        assert(duration_in_range(
            group_duration(s, keys, event_key(s[ops[ops.len() - 1]], keys).unwrap()),
        ));
    }
}

/// Merging keeps the total duration: the merged events' durations add up
/// to the durations of the events that have all the keys.
pub proof fn merge_preserves_total_duration(events: Seq<Event>, keys: Seq<Seq<char>>)
    requires
        keys.len() > 0,
        merge_within_limits(events, keys),
    ensures
        total_duration(merged_events(events, keys)) == keyed_duration(events, keys),
{
    let ops = group_openers(events, keys);
    lemma_openers_distinct(events, keys);
    assert forall|t: int| 0 <= t < ops.len() implies duration_in_range(
        group_duration(events, keys, event_key(events[#[trigger] ops[t]], keys).unwrap()),
    ) by {
        lemma_group_total_in_range(events, keys, ops[t]);
    }
    lemma_merged_total(events, keys, ops);
    lemma_group_sums_total(events, keys);
}


/// Events whose keys are present and pairwise distinct.
spec fn keys_all_distinct(s: Seq<Event>, keys: Seq<Seq<char>>) -> bool {
    &&& forall|i: int| 0 <= i < s.len() ==> (#[trigger] event_key(s[i], keys)) is Some
    &&& forall|i: int, j: int|
        0 <= i < j < s.len() ==> #[trigger] event_key(s[i], keys) != #[trigger] event_key(s[j], keys)
}

/// When every event has its own key, every event opens a group and each
/// group holds that event alone.
proof fn lemma_distinct_keys_groups(s: Seq<Event>, keys: Seq<Seq<char>>)
    requires
        keys_all_distinct(s, keys),
    ensures
        group_openers(s, keys) =~= Seq::new(s.len(), |i: int| i),
        forall|i: int|
            0 <= i < s.len() ==> group_duration(s, keys, (#[trigger] event_key(s[i], keys)).unwrap())
                == s[i].duration,
    decreases s.len(),
{
    if s.len() > 0 {
        let p = s.drop_last();
        let n = p.len() as int;
        assert(p.push(s.last()) =~= s);
        assert(keys_all_distinct(p, keys)) by {
            assert forall|i: int| 0 <= i < p.len() implies #[trigger] p[i] == s[i] by {}
        }
        lemma_distinct_keys_groups(p, keys);
        lemma_push_event(p, s.last(), keys);
        assert(opens_group(s, keys, n));
        assert forall|j: int| 0 <= j < p.len() implies event_key(p[j], keys) != Some(
            event_key(s[n], keys).unwrap(),
        ) by {
            assert(p[j] == s[j]);
        }
        lemma_absent_group(p, keys, event_key(s[n], keys).unwrap());
        assert forall|i: int| 0 <= i < s.len() implies group_duration(
            s,
            keys,
            (#[trigger] event_key(s[i], keys)).unwrap(),
        ) == s[i].duration by {
            if i < n {
                assert(p[i] == s[i]);
            }
        }
    }
}

/// Merging is idempotent: merging the result of a merge by the same keys
/// gives it back unchanged.
pub proof fn merge_is_idempotent(events: Seq<Event>, keys: Seq<Seq<char>>)
    ensures
        merged_events(merged_events(events, keys), keys) == merged_events(events, keys),
{
    if keys.len() > 0 {
        let r = merged_events(events, keys);
        merged_keys_are_distinct(events, keys);
        lemma_distinct_keys_groups(r, keys);
        assert forall|i: int| 0 <= i < r.len() implies #[trigger] merged_event(r, keys, i) == r[i] by {
            merged_takes_first_event(events, keys, i);
            assert(event_key(r[i], keys) is Some);
        }
        assert(merged_events(r, keys) =~= r);
    }
}

/// Whether an event has every one of `keys`.
pub open spec fn has_all_keys(keys: Seq<Seq<char>>) -> spec_fn(Event) -> bool {
    |e: Event| event_key(e, keys) is Some
}

/// Whether some event of `s` has the key values `k`.
pub open spec fn key_occurs(s: Seq<Event>, keys: Seq<Seq<char>>, k: Seq<Seq<char>>) -> bool {
    exists|j: int| 0 <= j < s.len() && event_key(#[trigger] s[j], keys) == Some(k)
}

/// The events that open the groups of `s`, in order.
spec fn opener_events(s: Seq<Event>, keys: Seq<Seq<char>>) -> Seq<Event> {
    group_openers(s, keys).map_values(|i: int| s[i])
}

/// The merged event that `e`, the first of its group in `s`, stands for.
spec fn merged_from(e: Event, s: Seq<Event>, keys: Seq<Seq<char>>) -> Event {
    Event {
        id: None,
        timestamp: e.timestamp,
        duration: group_duration(s, keys, event_key(e, keys).unwrap()) as i128,
        data: e.data,
        team_id: 1,
    }
}

/// The merge of `s` is made of its group openers.
proof fn lemma_merged_from_openers(s: Seq<Event>, keys: Seq<Seq<char>>)
    requires
        keys.len() > 0,
    ensures
        merged_events(s, keys) == opener_events(s, keys).map_values(
            |e: Event| merged_from(e, s, keys),
        ),
{
    assert(merged_events(s, keys) =~= opener_events(s, keys).map_values(
        |e: Event| merged_from(e, s, keys),
    ));
}

/// Adding an event adds it to the openers exactly when it has the keys and
/// its key values do not occur before; a key occurs afterwards when it
/// did before or the event has it.
proof fn lemma_opener_events_push(s: Seq<Event>, e: Event, keys: Seq<Seq<char>>)
    ensures
        opener_events(s.push(e), keys) == if event_key(e, keys) is Some && !key_occurs(
            s,
            keys,
            event_key(e, keys).unwrap(),
        ) {
            opener_events(s, keys).push(e)
        } else {
            opener_events(s, keys)
        },
        forall|k: Seq<Seq<char>>|
            #[trigger] key_occurs(s.push(e), keys, k) == (key_occurs(s, keys, k) || event_key(e, keys)
                == Some(k)),
{
    let s2 = s.push(e);
    let n = s.len() as int;
    lemma_push_event(s, e, keys);
    lemma_openers_valid(s, keys);
    assert(s2[n] == e);
    if event_key(e, keys) is Some {
        let k = event_key(e, keys).unwrap();
        if key_occurs(s, keys, k) {
            let j = choose|j: int| 0 <= j < s.len() && event_key(#[trigger] s[j], keys) == Some(k);
            assert(s2[j] == s[j]);
        } else {
            assert forall|j: int| 0 <= j < n implies event_key(s2[j], keys) != event_key(s2[n], keys) by {
                assert(s2[j] == s[j]);
            }
        }
    }
    let ops = group_openers(s, keys);
    assert forall|i: int| 0 <= i < ops.len() implies s2[ops[i]] == s[ops[i]] by {}
    if opens_group(s2, keys, n) {
        assert(opener_events(s2, keys) =~= opener_events(s, keys).push(e));
    } else {
        assert(opener_events(s2, keys) =~= opener_events(s, keys));
    }
    assert forall|k: Seq<Seq<char>>| #[trigger] key_occurs(s2, keys, k) == (key_occurs(s, keys, k)
        || event_key(e, keys) == Some(k)) by {
        if key_occurs(s, keys, k) {
            let j = choose|j: int| 0 <= j < s.len() && event_key(#[trigger] s[j], keys) == Some(k);
            assert(s2[j] == s[j]);
        }
        if key_occurs(s2, keys, k) {
            let j = choose|j: int| 0 <= j < s2.len() && event_key(#[trigger] s2[j], keys) == Some(k);
            if j < n {
                assert(s2[j] == s[j]);
            }
        }
    }
}

/// Leaving out the events that lack a key keeps the group openers, the
/// keys that occur and the group totals.
proof fn lemma_keyed_events(s: Seq<Event>, keys: Seq<Seq<char>>)
    ensures
        opener_events(s.filter(has_all_keys(keys)), keys) == opener_events(s, keys),
        forall|k: Seq<Seq<char>>|
            #[trigger] key_occurs(s.filter(has_all_keys(keys)), keys, k) == key_occurs(s, keys, k),
        forall|k: Seq<Seq<char>>|
            #[trigger] group_duration(s.filter(has_all_keys(keys)), keys, k) == group_duration(
                s,
                keys,
                k,
            ),
    decreases s.len(),
{
    let p = has_all_keys(keys);
    if s.len() == 0 {
        assert(s.filter(p) =~= s);
    } else {
        let q = s.drop_last();
        let e = s.last();
        assert(q.push(e) =~= s);
        lemma_keyed_events(q, keys);
        q.lemma_filter_push(e, p);
        lemma_opener_events_push(q, e, keys);
        lemma_push_event(q, e, keys);
        if event_key(e, keys) is Some {
            lemma_opener_events_push(q.filter(p), e, keys);
            lemma_push_event(q.filter(p), e, keys);
        }
    }
}

/// Merging leaves out the events that lack a key: merging only the events
/// that have every key gives the same result.
pub proof fn merge_ignores_events_without_all_keys(events: Seq<Event>, keys: Seq<Seq<char>>)
    ensures
        merged_events(events.filter(has_all_keys(keys)), keys) == merged_events(events, keys),
{
    if keys.len() > 0 {
        let f = events.filter(has_all_keys(keys));
        lemma_keyed_events(events, keys);
        lemma_merged_from_openers(f, keys);
        lemma_merged_from_openers(events, keys);
        assert(merged_events(f, keys) =~= merged_events(events, keys)) by {
            let oe = opener_events(events, keys);
            assert forall|i: int| 0 <= i < oe.len() implies merged_from(oe[i], f, keys)
                == merged_from(oe[i], events, keys) by {
                assert(group_duration(f, keys, event_key(oe[i], keys).unwrap()) == group_duration(
                    events,
                    keys,
                    event_key(oe[i], keys).unwrap(),
                ));
            }
        }
    }
}

/// How much `e` adds to the total of the group with key values `k`.
spec fn share(e: Event, keys: Seq<Seq<char>>, k: Seq<Seq<char>>) -> int {
    if event_key(e, keys) == Some(k) {
        e.duration as int
    } else {
        0
    }
}

/// Taking out one event takes its share out of its group's total.
proof fn lemma_group_duration_remove(s: Seq<Event>, keys: Seq<Seq<char>>, k: Seq<Seq<char>>, j: int)
    requires
        0 <= j < s.len(),
    ensures
        group_duration(s, keys, k) == group_duration(s.remove(j), keys, k) + share(s[j], keys, k),
    decreases s.len(),
{
    let q = s.drop_last();
    let n = s.len() - 1;
    lemma_push_event(q, s.last(), keys);
    assert(q.push(s.last()) =~= s);
    if j == n {
        assert(s.remove(j) =~= q);
    } else {
        lemma_group_duration_remove(q, keys, k, j);
        assert(s.remove(j) =~= q.remove(j).push(s.last()));
        lemma_push_event(q.remove(j), s.last(), keys);
        assert(q[j] == s[j]);
    }
}

/// Group totals do not depend on the order of the events.
proof fn lemma_group_duration_permutation(
    s1: Seq<Event>,
    s2: Seq<Event>,
    keys: Seq<Seq<char>>,
    k: Seq<Seq<char>>,
)
    requires
        s1.to_multiset() == s2.to_multiset(),
    ensures
        group_duration(s1, keys, k) == group_duration(s2, keys, k),
    decreases s1.len(),
{
    broadcast use vstd::seq_lib::group_to_multiset_ensures;

    if s1.len() == 0 {
        assert(s2.to_multiset().len() == 0);
        assert(s2.len() == 0);
    } else {
        let q = s1.drop_last();
        let x = s1.last();
        assert(q.push(x) =~= s1);
        lemma_push_event(q, x, keys);
        assert(s1.to_multiset().count(x) > 0);
        assert(s2.contains(x));
        let j = choose|j: int| 0 <= j < s2.len() && s2[j] == x;
        assert(s2.remove(j).to_multiset() =~= q.to_multiset());
        lemma_group_duration_permutation(q, s2.remove(j), keys, k);
        lemma_group_duration_remove(s2, keys, k, j);
    }
}

/// Reordering keeps the key values that occur.
proof fn lemma_key_occurs_permutation(
    s1: Seq<Event>,
    s2: Seq<Event>,
    keys: Seq<Seq<char>>,
    k: Seq<Seq<char>>,
)
    requires
        s1.to_multiset() == s2.to_multiset(),
    ensures
        key_occurs(s1, keys, k) == key_occurs(s2, keys, k),
{
    broadcast use vstd::seq_lib::group_to_multiset_ensures;

    if key_occurs(s1, keys, k) {
        let j = choose|j: int| 0 <= j < s1.len() && event_key(#[trigger] s1[j], keys) == Some(k);
        assert(s1.contains(s1[j]));
        assert(s1.to_multiset().count(s1[j]) > 0);
        assert(s2.to_multiset().count(s1[j]) > 0);
        assert(s2.contains(s1[j]));
        let i = choose|i: int| 0 <= i < s2.len() && s2[i] == s1[j];
        assert(event_key(s2[i], keys) == Some(k));
    }
    if key_occurs(s2, keys, k) {
        let j = choose|j: int| 0 <= j < s2.len() && event_key(#[trigger] s2[j], keys) == Some(k);
        assert(s2.contains(s2[j]));
        assert(s2.to_multiset().count(s2[j]) > 0);
        assert(s1.to_multiset().count(s2[j]) > 0);
        assert(s1.contains(s2[j]));
        let i = choose|i: int| 0 <= i < s1.len() && s1[i] == s2[j];
        assert(event_key(s1[i], keys) == Some(k));
    }
}

/// Whether `s[j]` is the first event of `s` with the key values `k`.
pub open spec fn first_with_key_at(s: Seq<Event>, keys: Seq<Seq<char>>, k: Seq<Seq<char>>, j: int) -> bool {
    &&& 0 <= j < s.len()
    &&& event_key(s[j], keys) == Some(k)
    &&& forall|m: int| 0 <= m < j ==> event_key(#[trigger] s[m], keys) != Some(k)
}

/// The first event of `s` with the key values `k`.
pub open spec fn first_with_key(s: Seq<Event>, keys: Seq<Seq<char>>, k: Seq<Seq<char>>) -> Event {
    s[choose|j: int| first_with_key_at(s, keys, k, j)]
}

/// Each group opener is the first event with its key values.
proof fn lemma_openers_are_first(s: Seq<Event>, keys: Seq<Seq<char>>, i: int)
    requires
        0 <= i < group_openers(s, keys).len(),
    ensures
        opener_events(s, keys)[i] == first_with_key(
            s,
            keys,
            event_key(opener_events(s, keys)[i], keys).unwrap(),
        ),
{
    lemma_openers_valid(s, keys);
    let o = group_openers(s, keys)[i];
    let k = event_key(s[o], keys).unwrap();
    assert(opens_group(s, keys, o));
    assert(first_with_key_at(s, keys, k, o));
    let j = choose|j: int| first_with_key_at(s, keys, k, j);
    if j < o {
        assert(event_key(s[j], keys) != event_key(s[o], keys));
    } else if o < j {
        assert(event_key(s[o], keys) != Some(k));
    }
}

/// The merged events of `s` are pairwise different.
proof fn lemma_merged_no_duplicates(s: Seq<Event>, keys: Seq<Seq<char>>)
    ensures
        merged_events(s, keys).no_duplicates(),
{
    merged_keys_are_distinct(s, keys);
    let m = merged_events(s, keys);
    assert forall|i: int, j: int| 0 <= i < m.len() && 0 <= j < m.len() && i != j implies m[i]
        != m[j] by {
        if i < j {
            assert(event_key(m[i], keys) != event_key(m[j], keys));
        } else {
            assert(event_key(m[j], keys) != event_key(m[i], keys));
        }
    }
}

/// An event of the merge of `s1` is one of the merge of `s2` when the two
/// hold the same events and the first event of each group of `s2` is also
/// the first of that group in `s1`.
proof fn lemma_merged_event_carries_over(
    s1: Seq<Event>,
    s2: Seq<Event>,
    keys: Seq<Seq<char>>,
    x: Event,
)
    requires
        keys.len() > 0,
        s1.to_multiset() == s2.to_multiset(),
        forall|k: Seq<Seq<char>>|
            key_occurs(s2, keys, k) ==> #[trigger] first_with_key(s1, keys, k) == first_with_key(
                s2,
                keys,
                k,
            ),
        merged_events(s1, keys).contains(x),
    ensures
        merged_events(s2, keys).contains(x),
{
    lemma_merged_from_openers(s1, keys);
    lemma_merged_from_openers(s2, keys);
    lemma_openers_valid(s1, keys);
    let i = choose|i: int| 0 <= i < merged_events(s1, keys).len() && merged_events(s1, keys)[i] == x;
    let e = opener_events(s1, keys)[i];
    let o = group_openers(s1, keys)[i];
    assert(opens_group(s1, keys, o));
    let k = event_key(e, keys).unwrap();
    assert(key_occurs(s1, keys, k));
    lemma_key_occurs_permutation(s1, s2, keys, k);
    lemma_openers_are_first(s1, keys, i);
    let j = choose|j: int| 0 <= j < s2.len() && event_key(#[trigger] s2[j], keys) == Some(k);
    lemma_key_has_opener(s2, keys, j);
    let i2 = choose|i2: int|
        0 <= i2 < group_openers(s2, keys).len() && event_key(
            s2[#[trigger] group_openers(s2, keys)[i2]],
            keys,
        ) == event_key(s2[j], keys);
    lemma_openers_are_first(s2, keys, i2);
    lemma_group_duration_permutation(s1, s2, keys, k);
    assert(merged_events(s2, keys)[i2] == x);
}

/// Whether neighbouring events are merged does not matter: reordering the
/// events, so long as each group keeps its first event, gives the same
/// merged events up to their order.
pub proof fn merge_ignores_order_within_groups(
    events: Seq<Event>,
    reordered: Seq<Event>,
    keys: Seq<Seq<char>>,
)
    requires
        reordered.to_multiset() == events.to_multiset(),
        forall|k: Seq<Seq<char>>|
            key_occurs(events, keys, k) ==> #[trigger] first_with_key(reordered, keys, k)
                == first_with_key(events, keys, k),
    ensures
        merged_events(reordered, keys).to_multiset() == merged_events(events, keys).to_multiset(),
{
    broadcast use vstd::seq_lib::group_to_multiset_ensures;

    if keys.len() > 0 {
        let m1 = merged_events(reordered, keys);
        let m2 = merged_events(events, keys);
        lemma_merged_no_duplicates(reordered, keys);
        lemma_merged_no_duplicates(events, keys);
        m1.lemma_multiset_has_no_duplicates();
        m2.lemma_multiset_has_no_duplicates();
        assert forall|k: Seq<Seq<char>>|
            key_occurs(reordered, keys, k) implies #[trigger] first_with_key(events, keys, k)
            == first_with_key(reordered, keys, k) by {
            lemma_key_occurs_permutation(reordered, events, keys, k);
        }
        assert forall|x: Event| m1.to_multiset().count(x) == m2.to_multiset().count(x) by {
            if m1.contains(x) {
                lemma_merged_event_carries_over(reordered, events, keys, x);
            }
            if m2.contains(x) {
                lemma_merged_event_carries_over(events, reordered, keys, x);
            }
        }
        assert(m1.to_multiset() =~= m2.to_multiset());
    }
}

/// Whether `data` has a pair named `name`.
pub open spec fn has_field(data: Seq<(String, String)>, name: Seq<char>) -> bool {
    exists|j: int| 0 <= j < data.len() && (#[trigger] data[j]).0@ == name
}

/// Whether an event's data has a pair for every one of `keys`.
pub open spec fn has_every_field(data: Seq<(String, String)>, keys: Seq<Seq<char>>) -> bool {
    forall|t: int| 0 <= t < keys.len() ==> has_field(data, #[trigger] keys[t])
}

/// A field is missing exactly when no pair has its name.
proof fn lemma_field_missing(data: Seq<(String, String)>, name: Seq<char>)
    ensures
        field_value(data, name) is None <==> !has_field(data, name),
    decreases data.len(),
{
    if data.len() > 0 {
        let rest = data.drop_first();
        lemma_field_missing(rest, name);
        if data[0].0@ == name {
            assert(has_field(data, name)) by {
                assert(data[0].0@ == name);
            }
        } else {
            if has_field(data, name) {
                let j = choose|j: int| 0 <= j < data.len() && (#[trigger] data[j]).0@ == name;
                assert(rest[j - 1] == data[j]);
            }
            if has_field(rest, name) {
                let j = choose|j: int| 0 <= j < rest.len() && (#[trigger] rest[j]).0@ == name;
                assert(rest[j] == data[j + 1]);
            }
        }
    }
}

/// The value found for a name is that of the first pair with the name.
proof fn lemma_field_first(data: Seq<(String, String)>, name: Seq<char>, j: int)
    requires
        0 <= j < data.len(),
        data[j].0@ == name,
        forall|m: int| 0 <= m < j ==> (#[trigger] data[m]).0@ != name,
    ensures
        field_value(data, name) == Some(data[j].1@),
    decreases j,
{
    if j > 0 {
        let rest = data.drop_first();
        assert(data[0].0@ != name);
        assert forall|m: int| 0 <= m < j - 1 implies (#[trigger] rest[m]).0@ != name by {
            assert(rest[m] == data[m + 1]);
        }
        assert(rest[j - 1] == data[j]);
        lemma_field_first(rest, name, j - 1);
    }
}

/// A field is found wherever it stands, and its value is the text of the
/// first pair with its name, whatever that text is; a field is missing
/// only when no pair has its name.
pub proof fn field_lookup_finds_the_first_pair(data: Seq<(String, String)>, name: Seq<char>)
    ensures
        field_value(data, name) is None <==> !has_field(data, name),
        forall|j: int|
            0 <= j < data.len() && (#[trigger] data[j]).0@ == name && (forall|m: int|
                0 <= m < j ==> data[m].0@ != name) ==> field_value(data, name) == Some(data[j].1@),
{
    lemma_field_missing(data, name);
    assert forall|j: int|
        0 <= j < data.len() && (#[trigger] data[j]).0@ == name && (forall|m: int|
            0 <= m < j ==> data[m].0@ != name) implies field_value(data, name) == Some(data[j].1@) by {
        lemma_field_first(data, name, j);
    }
}

/// The values of `keys` are present exactly when each key's field is,
/// and then they are those fields' values, one per key, in order.
proof fn lemma_key_values_per_key(data: Seq<(String, String)>, keys: Seq<Seq<char>>)
    ensures
        key_values(data, keys) is Some <==> forall|t: int|
            0 <= t < keys.len() ==> (#[trigger] field_value(data, keys[t])) is Some,
        key_values(data, keys) matches Some(vs) ==> vs.len() == keys.len() && forall|t: int|
            0 <= t < keys.len() ==> #[trigger] field_value(data, keys[t]) == Some(vs[t]),
    decreases keys.len(),
{
    if keys.len() > 0 {
        let q = keys.drop_last();
        let n = q.len() as int;
        lemma_key_values_per_key(data, q);
        assert forall|t: int| 0 <= t < q.len() implies #[trigger] q[t] == keys[t] by {}
        assert(keys.last() == keys[n]);
        match (key_values(data, q), field_value(data, keys.last())) {
            (Some(vs), Some(v)) => {
                let ws = vs.push(v);
                assert(key_values(data, keys) == Some(ws));
                assert forall|t: int| 0 <= t < keys.len() implies #[trigger] field_value(
                    data,
                    keys[t],
                ) == Some(ws[t]) by {
                    if t < n {
                        assert(field_value(data, q[t]) == Some(vs[t]));
                    }
                }
            },
            (None, _) => {
                assert(key_values(data, keys) is None);
                let t = choose|t: int| 0 <= t < q.len() && (#[trigger] field_value(data, q[t])) is None;
                assert(field_value(data, keys[t]) is None);
            },
            (Some(_), None) => {
                assert(key_values(data, keys) is None);
                assert(field_value(data, keys[n]) is None);
            },
        }
    }
}

/// The merge key of an event depends on its data alone: the event has one
/// exactly when its data has a pair for every key, and it then holds, for
/// every key in order, the full text of that key's field.
pub proof fn merge_key_holds_every_key_value(e: Event, keys: Seq<Seq<char>>)
    ensures
        event_key(e, keys) is Some <==> has_every_field(e.data@, keys),
        event_key(e, keys) matches Some(vs) ==> vs.len() == keys.len() && forall|t: int|
            0 <= t < keys.len() ==> #[trigger] field_value(e.data@, keys[t]) == Some(vs[t]),
{
    lemma_key_values_per_key(e.data@, keys);
    assert forall|t: int| 0 <= t < keys.len() implies (#[trigger] field_value(e.data@, keys[t])) is Some
        == has_field(e.data@, keys[t]) by {
        lemma_field_missing(e.data@, keys[t]);
    }
    if has_every_field(e.data@, keys) {
        assert forall|t: int| 0 <= t < keys.len() implies (#[trigger] field_value(
            e.data@,
            keys[t],
        )) is Some by {
            assert(has_field(e.data@, keys[t]));
            lemma_field_missing(e.data@, keys[t]);
        }
    }
    if event_key(e, keys) is Some {
        assert forall|t: int| 0 <= t < keys.len() implies has_field(e.data@, #[trigger] keys[t]) by {
            assert((field_value(e.data@, keys[t])) is Some);
            lemma_field_missing(e.data@, keys[t]);
        }
    }
}

/// Every event whose data has a pair for every key is represented in the
/// merge by an event with the same value at every key.
pub proof fn merge_represents_every_event_with_all_keys(
    events: Seq<Event>,
    keys: Seq<Seq<char>>,
    j: int,
)
    requires
        keys.len() > 0,
        0 <= j < events.len(),
        has_every_field(events[j].data@, keys),
    ensures
        exists|i: int|
            #![trigger merged_events(events, keys)[i]]
            0 <= i < merged_events(events, keys).len() && forall|t: int|
                0 <= t < keys.len() ==> #[trigger] field_value(
                    merged_events(events, keys)[i].data@,
                    keys[t],
                ) == field_value(events[j].data@, keys[t]),
{
    merge_key_holds_every_key_value(events[j], keys);
    merged_covers_every_keyed_event(events, keys, j);
    let i = choose|i: int|
        0 <= i < merged_events(events, keys).len() && #[trigger] event_key(
            merged_events(events, keys)[i],
            keys,
        ) == event_key(events[j], keys);
    merge_key_holds_every_key_value(merged_events(events, keys)[i], keys);
    assert forall|t: int| 0 <= t < keys.len() implies #[trigger] field_value(
        merged_events(events, keys)[i].data@,
        keys[t],
    ) == field_value(events[j].data@, keys[t]) by {}
}

/// Two events of the merge differ in the value of some key: events whose
/// value texts differ at a key are never merged into one.
pub proof fn merged_events_differ_at_some_key(events: Seq<Event>, keys: Seq<Seq<char>>, i: int, j: int)
    requires
        0 <= i < j < merged_events(events, keys).len(),
    ensures
        has_every_field(merged_events(events, keys)[i].data@, keys),
        exists|t: int|
            0 <= t < keys.len() && #[trigger] field_value(merged_events(events, keys)[i].data@, keys[t])
                != field_value(merged_events(events, keys)[j].data@, keys[t]),
{
    let m = merged_events(events, keys);
    merged_keys_are_distinct(events, keys);
    assert(event_key(m[i], keys) != event_key(m[j], keys));
    merge_key_holds_every_key_value(m[i], keys);
    merge_key_holds_every_key_value(m[j], keys);
    let vi = event_key(m[i], keys).unwrap();
    let vj = event_key(m[j], keys).unwrap();
    if forall|t: int| 0 <= t < keys.len() ==> #[trigger] field_value(m[i].data@, keys[t])
        == field_value(m[j].data@, keys[t]) {
        assert forall|t: int| 0 <= t < keys.len() implies vi[t] == vj[t] by {
            assert(field_value(m[i].data@, keys[t]) == field_value(m[j].data@, keys[t]));
        }
        assert(vi =~= vj);
    }
}

} // verus!
