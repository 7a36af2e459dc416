use vstd::prelude::*;

verus! {

/// The largest magnitude, in nanoseconds, that an event's duration can
/// take: `i64::MAX` milliseconds.
pub const DURATION_LIMIT_NS: i128 = 9_223_372_036_854_775_807_000_000i128;

/// A recorded activity.
///
/// `timestamp` is the start, in nanoseconds since the Unix epoch, and
/// `duration` is a length of time in nanoseconds whose magnitude is at
/// most [`DURATION_LIMIT_NS`]. `data` holds the event's fields as pairs of
/// a field name and the JSON text of its value; where a name occurs more
/// than once, its first pair counts.
#[derive(Clone, Debug, PartialEq)]
pub struct Event {
    pub id: Option<i64>,
    pub timestamp: i128,
    pub duration: i128,
    pub data: Vec<(String, String)>,
    pub team_id: i32,
}

/// A duration that an [`Event`] can hold.
pub open spec fn duration_in_range(d: int) -> bool {
    -DURATION_LIMIT_NS <= d <= DURATION_LIMIT_NS
}

/// The keys as text.
pub open spec fn keys_view(keys: Seq<String>) -> Seq<Seq<char>> {
    texts(keys)
}

/// The strings as text.
pub open spec fn texts(strings: Seq<String>) -> Seq<Seq<char>> {
    strings.map_values(|t: String| t@)
}

/// The JSON text of the value stored under `name` in `data`: that of the
/// first pair with that name, or `None` when there is none.
pub open spec fn field_value(data: Seq<(String, String)>, name: Seq<char>) -> Option<Seq<char>>
    decreases data.len(),
{
    if data.len() == 0 {
        None
    } else if data[0].0@ == name {
        Some(data[0].1@)
    } else {
        field_value(data.drop_first(), name)
    }
}

/// The values of `keys` in `data`, in the order of `keys`; `None` when one
/// of them is missing.
pub open spec fn key_values(data: Seq<(String, String)>, keys: Seq<Seq<char>>) -> Option<
    Seq<Seq<char>>,
>
    decreases keys.len(),
{
    if keys.len() == 0 {
        Some(seq![])
    } else {
        match (key_values(data, keys.drop_last()), field_value(data, keys.last())) {
            (Some(vs), Some(v)) => Some(vs.push(v)),
            _ => None,
        }
    }
}

/// The values by which an event is grouped when merging by `keys`: the
/// JSON texts of the values of the keys, in the order of `keys`, or `None`
/// when the event lacks one of them.
pub open spec fn event_key(e: Event, keys: Seq<Seq<char>>) -> Option<Seq<Seq<char>>> {
    key_values(e.data@, keys)
}

} // verus!
