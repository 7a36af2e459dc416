use vstd::prelude::*;
use vstd::string::*;

use crate::event::{
    duration_in_range, event_key, field_value, key_values, keys_view, texts, Event,
    DURATION_LIMIT_NS,
};

verus! {

/// Whether `events[i]` is the first event of its group: it has all the
/// keys and no earlier event has the same merge key.
pub open spec fn opens_group(events: Seq<Event>, keys: Seq<Seq<char>>, i: int) -> bool {
    &&& event_key(events[i], keys) is Some
    &&& forall|j: int| 0 <= j < i ==> event_key(events[j], keys) != event_key(events[i], keys)
}

/// The indices of the events that open a group, in increasing order.
pub open spec fn group_openers(events: Seq<Event>, keys: Seq<Seq<char>>) -> Seq<int>
    decreases events.len(),
{
    if events.len() == 0 {
        seq![]
    } else {
        let before = group_openers(events.drop_last(), keys);
        if opens_group(events, keys, events.len() - 1) {
            before.push(events.len() - 1)
        } else {
            before
        }
    }
}

/// The total duration of the events whose merge key is `k`.
pub open spec fn group_duration(events: Seq<Event>, keys: Seq<Seq<char>>, k: Seq<Seq<char>>) -> int
    decreases events.len(),
{
    if events.len() == 0 {
        0
    } else {
        group_duration(events.drop_last(), keys, k) + if event_key(events.last(), keys) == Some(
            k,
        ) {
            events.last().duration as int
        } else {
            0
        }
    }
}

/// The event that stands for the group opened by `events[i]`: no id,
/// the timestamp and data of `events[i]`, the group's total duration,
/// and team 1.
pub open spec fn merged_event(events: Seq<Event>, keys: Seq<Seq<char>>, i: int) -> Event {
    Event {
        id: None,
        timestamp: events[i].timestamp,
        duration: group_duration(events, keys, event_key(events[i], keys).unwrap()) as i128,
        data: events[i].data,
        team_id: 1,
    }
}

/// The result of merging `events` by `keys`: nothing when there are no
/// keys; otherwise one event for each distinct merge key, in the order in
/// which the keys first occur.
pub open spec fn merged_events(events: Seq<Event>, keys: Seq<Seq<char>>) -> Seq<Event> {
    if keys.len() == 0 {
        seq![]
    } else {
        group_openers(events, keys).map_values(|i: int| merged_event(events, keys, i))
    }
}

/// Whether every event holds a duration that an [`Event`] can hold.
pub open spec fn durations_valid(events: Seq<Event>) -> bool {
    forall|i: int| 0 <= i < events.len() ==> duration_in_range(#[trigger] events[i].duration as int)
}

/// Whether merging `events` by `keys` keeps every running total within the
/// durations that an event can hold: at each event that has all the keys,
/// the total of its group up to and including it is one.
pub open spec fn group_totals_in_range(events: Seq<Event>, keys: Seq<Seq<char>>) -> bool {
    keys.len() > 0 ==> forall|i: int|
        0 <= i < events.len() && #[trigger] event_key(events[i], keys) is Some ==> duration_in_range(
            group_duration(events.take(i + 1), keys, event_key(events[i], keys).unwrap()),
        )
}

/// Whether merging `events` by `keys` stays within the durations that an
/// event can hold.
pub open spec fn merge_within_limits(events: Seq<Event>, keys: Seq<Seq<char>>) -> bool {
    durations_valid(events) && group_totals_in_range(events, keys)
}

/// The value stored under `name` in `data`.
fn find_field<'a>(data: &'a Vec<(String, String)>, name: &String) -> (res: Option<&'a String>)
    ensures
        match res {
            Some(v) => field_value(data@, name@) == Some(v@),
            None => field_value(data@, name@) is None,
        },
{
    let mut i: usize = 0;
    assert(data@.skip(0) =~= data@);
    while i < data.len()
        invariant
            i <= data.len(),
            field_value(data@, name@) == field_value(data@.skip(i as int), name@),
        decreases data.len() - i,
    {
        assert(data@.skip(i as int).drop_first() =~= data@.skip(i + 1));
        if data[i].0 == *name {
            return Some(&data[i].1);
        }
        i = i + 1;
    }
    None
}

/// The values of `keys` in `data`, or `None` when one is missing.
fn merge_key(data: &Vec<(String, String)>, keys: &Vec<String>) -> (res: Option<Vec<String>>)
    ensures
        match res {
            Some(vals) => key_values(data@, keys_view(keys@)) == Some(texts(vals@)),
            None => key_values(data@, keys_view(keys@)) is None,
        },
{
    let ghost ks = keys_view(keys@);
    let mut vals: Vec<String> = Vec::new();
    let mut i: usize = 0;
    assert(ks.take(0) =~= Seq::<Seq<char>>::empty());
    assert(texts(vals@) =~= Seq::<Seq<char>>::empty());
    while i < keys.len()
        invariant
            i <= keys.len(),
            ks == keys_view(keys@),
            key_values(data@, ks.take(i as int)) == Some(texts(vals@)),
        decreases keys.len() - i,
    {
        assert(ks.take(i + 1).drop_last() =~= ks.take(i as int));
        assert(ks.take(i + 1).last() == keys@[i as int]@);
        match find_field(data, &keys[i]) {
            Some(v) => {
                let ghost before = vals@;
                vals.push(v.clone());
                assert(texts(vals@) =~= texts(before).push(v@));
            },
            None => {
                proof {
                    assert(key_values(data@, ks.take(i + 1)) is None);
                    lemma_missing_key_stays_missing(data@, ks, i as int + 1);
                    assert(ks.take(keys.len() as int) =~= ks);
                }
                return None;
            },
        }
        i = i + 1;
    }
    assert(ks.take(keys.len() as int) =~= ks);
    Some(vals)
}

/// Once a key among the first `n` is missing, a longer list of keys has a
/// missing key too.
proof fn lemma_missing_key_stays_missing(data: Seq<(String, String)>, keys: Seq<Seq<char>>, n: int)
    requires
        0 <= n <= keys.len(),
        key_values(data, keys.take(n)) is None,
    ensures
        key_values(data, keys) is None,
    decreases keys.len() - n,
{
    if n < keys.len() {
        assert(keys.take(n + 1).drop_last() =~= keys.take(n));
        lemma_missing_key_stays_missing(data, keys, n + 1);
    } else {
        assert(keys.take(n) =~= keys);
    }
}

/// Whether `a` and `b` hold the same texts.
fn same_texts(a: &Vec<String>, b: &Vec<String>) -> (res: bool)
    ensures
        res == (texts(a@) == texts(b@)),
{
    if a.len() != b.len() {
        assert(texts(a@).len() != texts(b@).len());
        return false;
    }
    let mut i: usize = 0;
    while i < a.len()
        invariant
            i <= a.len(),
            a.len() == b.len(),
            forall|j: int| 0 <= j < i ==> a@[j]@ == b@[j]@,
        decreases a.len() - i,
    {
        if a[i] != b[i] {
            assert(texts(a@)[i as int] != texts(b@)[i as int]);
            return false;
        }
        i = i + 1;
    }
    assert(texts(a@) =~= texts(b@));
    true
}

/// The position of the values `k` among `group_keys`.
fn find_group(group_keys: &Vec<Vec<String>>, k: &Vec<String>) -> (res: Option<usize>)
    ensures
        match res {
            Some(i) => i < group_keys.len() && texts(group_keys@[i as int]@) == texts(k@),
            None => forall|i: int|
                0 <= i < group_keys.len() ==> texts(group_keys@[i]@) != texts(k@),
        },
{
    let mut i: usize = 0;
    while i < group_keys.len()
        invariant
            i <= group_keys.len(),
            forall|j: int| 0 <= j < i ==> texts(group_keys@[j]@) != texts(k@),
        decreases group_keys.len() - i,
    {
        if same_texts(&group_keys[i], k) {
            return Some(i);
        }
        i = i + 1;
    }
    None
}

/// `s` with one more event: its openers gain the new index exactly when
/// the new event opens a group, the earlier indices keep their standing,
/// and the total of each group grows by the new event's duration when the
/// event belongs to it.
pub(crate) proof fn lemma_push_event(s: Seq<Event>, e: Event, keys: Seq<Seq<char>>)
    ensures
        s.push(e).drop_last() == s,
        group_openers(s.push(e), keys) == if opens_group(s.push(e), keys, s.len() as int) {
            group_openers(s, keys).push(s.len() as int)
        } else {
            group_openers(s, keys)
        },
        forall|i: int| 0 <= i < s.len() ==> opens_group(s.push(e), keys, i) == opens_group(s, keys, i),
        forall|k: Seq<Seq<char>>|
            #![trigger group_duration(s.push(e), keys, k)]
            group_duration(s.push(e), keys, k) == group_duration(s, keys, k) + if event_key(e, keys)
                == Some(k) {
                e.duration as int
            } else {
                0
            },
{
    assert(s.push(e).drop_last() =~= s);
    assert forall|i: int| 0 <= i < s.len() implies opens_group(s.push(e), keys, i) == opens_group(
        s,
        keys,
        i,
    ) by {
        assert(s.push(e)[i] == s[i]);
        assert forall|j: int| 0 <= j < i implies s.push(e)[j] == s[j] by {}
    }
}

/// The openers of `s` are indices of `s`, in strictly increasing order,
/// and each opens its group.
pub(crate) proof fn lemma_openers_valid(s: Seq<Event>, keys: Seq<Seq<char>>)
    ensures
        forall|i: int|
            0 <= i < group_openers(s, keys).len() ==> 0 <= #[trigger] group_openers(s, keys)[i] < s.len()
                && opens_group(s, keys, group_openers(s, keys)[i]),
        forall|i: int, j: int|
            0 <= i < j < group_openers(s, keys).len() ==> group_openers(s, keys)[i] < group_openers(
                s,
                keys,
            )[j],
    decreases s.len(),
{
    if s.len() > 0 {
        let p = s.drop_last();
        lemma_openers_valid(p, keys);
        lemma_push_event(p, s.last(), keys);
        assert(p.push(s.last()) =~= s);
    }
}

/// A group that no event of `s` belongs to has total duration zero.
pub(crate) proof fn lemma_absent_group(s: Seq<Event>, keys: Seq<Seq<char>>, k: Seq<Seq<char>>)
    requires
        forall|j: int| 0 <= j < s.len() ==> event_key(s[j], keys) != Some(k),
    ensures
        group_duration(s, keys, k) == 0,
    decreases s.len(),
{
    if s.len() > 0 {
        let p = s.drop_last();
        assert forall|j: int| 0 <= j < p.len() implies event_key(p[j], keys) != Some(k) by {
            assert(p[j] == s[j]);
        }
        lemma_absent_group(p, keys, k);
    }
}

/// What the merge has built after reading the events `s`: one event and
/// one key text per group opener of `s`, in the openers' order, each event
/// holding the exact total of its group, and every key of `s` among the
/// key texts.
spec fn merge_state(
    merged: Seq<Event>,
    group_keys: Seq<Vec<String>>,
    s: Seq<Event>,
    ks: Seq<Seq<char>>,
) -> bool {
    let op = group_openers(s, ks);
    &&& merged.len() == op.len()
    &&& group_keys.len() == op.len()
    &&& forall|i: int|
        0 <= i < merged.len() ==> #[trigger] merged[i] == merged_event(s, ks, op[i])
            && merged[i].duration as int == group_duration(
            s,
            ks,
            event_key(s[op[i]], ks).unwrap(),
        )
    &&& forall|i: int| 0 <= i < group_keys.len() ==> Some(texts(#[trigger] group_keys[i]@)) == event_key(s[op[i]], ks)
    &&& forall|j: int|
        0 <= j < s.len() && (#[trigger] event_key(s[j], ks)) is Some ==> exists|i: int|
            0 <= i < group_keys.len() && Some(texts(#[trigger] group_keys[i]@)) == event_key(s[j], ks)
}

/// A group total of events that stay within the limits is one too.
pub(crate) proof fn lemma_group_total_in_range(s: Seq<Event>, keys: Seq<Seq<char>>, j: int)
    requires
        keys.len() > 0,
        merge_within_limits(s, keys),
        0 <= j < s.len(),
        event_key(s[j], keys) is Some,
    ensures
        duration_in_range(group_duration(s, keys, event_key(s[j], keys).unwrap())),
    decreases s.len(),
{
    let n = s.len() - 1;
    let p = s.drop_last();
    let k = event_key(s[j], keys).unwrap();
    assert(p.push(s.last()) =~= s);
    lemma_push_event(p, s.last(), keys);
    if event_key(s[n], keys) == Some(k) {
        assert(s.take(n + 1) =~= s);
    } else {
        assert(p[j] == s[j]);
        assert forall|i: int| 0 <= i < p.len() && #[trigger] event_key(p[i], keys) is Some implies duration_in_range(
            group_duration(p.take(i + 1), keys, event_key(p[i], keys).unwrap()),
        ) by {
            assert(p[i] == s[i]);
            assert(p.take(i + 1) =~= s.take(i + 1));
        }
        assert forall|i: int| 0 <= i < p.len() implies duration_in_range(#[trigger] p[i].duration as int) by {
            assert(p[i] == s[i]);
        }
        lemma_group_total_in_range(p, keys, j);
    }
}

/// Adds one event to what the merge has built, when the total of its
/// group stays within range; answers whether it did.
fn absorb(
    merged: &mut Vec<Event>,
    group_keys: &mut Vec<Vec<String>>,
    event: Event,
    keys: &Vec<String>,
    Ghost(s): Ghost<Seq<Event>>,
) -> (ok: bool)
    requires
        keys@.len() > 0,
        merge_state(old(merged)@, old(group_keys)@, s, keys_view(keys@)),
        merge_within_limits(s, keys_view(keys@)),
        duration_in_range(event.duration as int),
    ensures
        ok == (event_key(event, keys_view(keys@)) is Some ==> duration_in_range(
            group_duration(s.push(event), keys_view(keys@), event_key(event, keys_view(keys@)).unwrap()),
        )),
        ok ==> merge_state(final(merged)@, final(group_keys)@, s.push(event), keys_view(keys@)),
{
    let ghost ks = keys_view(keys@);
    let ghost s2 = s.push(event);
    let ghost n = s.len() as int;
    proof {
        lemma_push_event(s, event, ks);
        lemma_openers_valid(s, ks);
        lemma_openers_valid(s2, ks);
        assert(s2[n] == event);
    }
    match merge_key(&event.data, keys) {
        None => {
            assert(event_key(event, ks) is None);
            assert(!opens_group(s2, ks, n));
            assert forall|i: int| 0 <= i < merged.len() implies #[trigger] merged@[i]
                == merged_event(s2, ks, group_openers(s2, ks)[i]) && merged@[i].duration as int
                == group_duration(s2, ks, event_key(s2[group_openers(s2, ks)[i]], ks).unwrap()) by {
                let o = group_openers(s, ks)[i];
                assert(s2[o] == s[o]);
            }
            assert forall|j: int|
                0 <= j < s2.len() && (#[trigger] event_key(s2[j], ks)) is Some implies exists|i: int|
                    0 <= i < group_keys.len() && Some(texts(#[trigger] group_keys@[i]@)) == event_key(
                        s2[j],
                        ks,
                    ) by {
                assert(s2[j] == s[j]);
            }
            true
        },
        Some(k) => {
            match find_group(group_keys, &k) {
                Some(idx) => {
                    let ghost o = group_openers(s, ks)[idx as int];
                    assert(s2[o] == s[o]);
                    assert(!opens_group(s2, ks, n));
                    proof {
                        lemma_group_total_in_range(s, ks, o);
                    }
                    let total = merged[idx].duration + event.duration;
                    if total < -DURATION_LIMIT_NS || total > DURATION_LIMIT_NS {
                        return false;
                    }
                    merged[idx].duration = total;
                    assert forall|i: int| 0 <= i < merged.len() implies #[trigger] merged@[i]
                        == merged_event(s2, ks, group_openers(s2, ks)[i])
                        && merged@[i].duration as int == group_duration(
                        s2,
                        ks,
                        event_key(s2[group_openers(s2, ks)[i]], ks).unwrap(),
                    ) by {
                        let oi = group_openers(s, ks)[i];
                        assert(s2[oi] == s[oi]);
                        if i != idx {
                            if oi < o {
                                assert(event_key(s[o], ks) != event_key(s[oi], ks));
                            } else {
                                assert(oi != o);
                                assert(event_key(s[oi], ks) != event_key(s[o], ks));
                            }
                        }
                    }
                    assert forall|j: int|
                        0 <= j < s2.len() && (#[trigger] event_key(s2[j], ks)) is Some implies exists|
                        i: int,
                    |
                        0 <= i < group_keys.len() && Some(texts(#[trigger] group_keys@[i]@)) == event_key(
                            s2[j],
                            ks,
                        ) by {
                        if j < n {
                            assert(s2[j] == s[j]);
                        } else {
                            assert(Some(texts(group_keys@[idx as int]@)) == event_key(s2[j], ks));
                        }
                    }
                    true
                },
                None => {
                    assert forall|j: int| 0 <= j < n implies event_key(s2[j], ks) != Some(texts(k@)) by {
                        assert(s2[j] == s[j]);
                        if event_key(s[j], ks) == Some(texts(k@)) {
                            let i = choose|i: int|
                                0 <= i < group_keys.len() && Some(texts(#[trigger] group_keys@[i]@))
                                    == event_key(s[j], ks);
                            assert(texts(group_keys@[i]@) == texts(k@));
                        }
                    }
                    assert(opens_group(s2, ks, n));
                    proof {
                        lemma_absent_group(s, ks, texts(k@));
                    }
                    let ghost before = merged@;
                    let ghost before_keys = group_keys@;
                    merged.push(
                        Event {
                            id: None,
                            timestamp: event.timestamp,
                            duration: event.duration,
                            data: event.data,
                            team_id: 1,
                        },
                    );
                    group_keys.push(k);
                    assert forall|i: int| 0 <= i < merged.len() implies #[trigger] merged@[i]
                        == merged_event(s2, ks, group_openers(s2, ks)[i])
                        && merged@[i].duration as int == group_duration(
                        s2,
                        ks,
                        event_key(s2[group_openers(s2, ks)[i]], ks).unwrap(),
                    ) by {
                        if i < before.len() {
                            let oi = group_openers(s, ks)[i];
                            assert(s2[oi] == s[oi]);
                            assert(event_key(s[oi], ks) != Some(texts(k@)));
                        }
                    }
                    assert forall|i: int| 0 <= i < group_keys.len() implies Some(
                        texts(#[trigger] group_keys@[i]@),
                    ) == event_key(s2[group_openers(s2, ks)[i]], ks) by {
                        if i < before.len() {
                            let oi = group_openers(s, ks)[i];
                            assert(s2[oi] == s[oi]);
                            assert(group_keys@[i] == before_keys[i]);
                        }
                    }
                    assert forall|j: int|
                        0 <= j < s2.len() && (#[trigger] event_key(s2[j], ks)) is Some implies exists|
                        i: int,
                    |
                        0 <= i < group_keys.len() && Some(texts(#[trigger] group_keys@[i]@)) == event_key(
                            s2[j],
                            ks,
                        ) by {
                        if j < n {
                            assert(s2[j] == s[j]);
                            let i = choose|i: int|
                                0 <= i < before_keys.len() && Some(texts(#[trigger] before_keys[i]@))
                                    == event_key(s[j], ks);
                            assert(group_keys@[i] == before_keys[i]);
                        } else {
                            assert(Some(texts(group_keys@[before.len() as int]@)) == event_key(s2[j], ks));
                        }
                    }
                    true
                },
            }
        },
    }
}

/// The limits hold for `s` extended by `e` when they hold for `s` and at
/// `e`.
proof fn lemma_limits_push(s: Seq<Event>, e: Event, keys: Seq<Seq<char>>)
    requires
        keys.len() > 0,
        merge_within_limits(s, keys),
        duration_in_range(e.duration as int),
        event_key(e, keys) is Some ==> duration_in_range(
            group_duration(s.push(e), keys, event_key(e, keys).unwrap()),
        ),
    ensures
        merge_within_limits(s.push(e), keys),
{
    let s2 = s.push(e);
    assert forall|i: int| 0 <= i < s2.len() implies duration_in_range(#[trigger] s2[i].duration as int) by {
        if i < s.len() {
            assert(s2[i] == s[i]);
        }
    }
    assert forall|i: int|
        0 <= i < s2.len() && #[trigger] event_key(s2[i], keys) is Some implies duration_in_range(
        group_duration(s2.take(i + 1), keys, event_key(s2[i], keys).unwrap()),
    ) by {
        if i < s.len() {
            assert(s2[i] == s[i]);
            assert(s2.take(i + 1) =~= s.take(i + 1));
        } else {
            assert(s2.take(i + 1) =~= s2);
        }
    }
}

/// Merges the events that share the same values at `keys`, or answers
/// `None` when the total duration of a group would leave the range that
/// an event's duration can take.
///
/// See [`merge_events_by_keys`] for what the merge gives.
pub fn checked_merge_events_by_keys(events: Vec<Event>, keys: Vec<String>) -> (res: Option<
    Vec<Event>,
>)
    requires
        durations_valid(events@),
    ensures
        res is Some <==> group_totals_in_range(events@, keys_view(keys@)),
        res matches Some(r) ==> r@ == merged_events(events@, keys_view(keys@)),
{
    if keys.len() == 0 {
        return Some(Vec::new());
    }
    let ghost ks = keys_view(keys@);
    let ghost all = events@;
    let mut merged: Vec<Event> = Vec::new();
    let mut group_keys: Vec<Vec<String>> = Vec::new();
    assert(all.take(0) =~= Seq::<Event>::empty());
    for event in it: events
        invariant
            ks == keys_view(keys@),
            ks.len() > 0,
            it.seq() == all,
            durations_valid(all),
            merge_within_limits(all.take(it.index() as int), ks),
            merge_state(merged@, group_keys@, all.take(it.index() as int), ks),
    {
        let ghost n = it.index() as int;
        let ghost s = all.take(n);
        assert(all.take(n + 1) =~= s.push(event));
        assert(all[n] == event);
        let ok = absorb(&mut merged, &mut group_keys, event, &keys, Ghost(s));
        if !ok {
            assert(event_key(all[n], ks) is Some);
            return None;
        }
        proof {
            lemma_limits_push(s, event, ks);
        }
    }
    assert(all.take(all.len() as int) =~= all);
    assert(merged@ =~= merged_events(all, ks));
    Some(merged)
}

/// Merges the events that share the same values at `keys`.
///
/// Events that lack one of the keys are left out. Each group of events
/// whose key values, taken as JSON text, are equal becomes one event: it has the timestamp and data of the group's first
/// event, the sum of the group's durations, no id and team 1. The groups
/// come in the order in which they first occur. With no keys the result
/// is empty.
pub fn merge_events_by_keys(events: Vec<Event>, keys: Vec<String>) -> (res: Vec<Event>)
    requires
        merge_within_limits(events@, keys_view(keys@)),
    ensures
        res@ == merged_events(events@, keys_view(keys@)),
{
    match checked_merge_events_by_keys(events, keys) {
        Some(r) => r,
        None => Vec::new(),
    }
}

} // verus!
