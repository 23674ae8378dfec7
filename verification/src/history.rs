//! Price histories: the ordered observations of one (source, asset) pair, and
//! the three ways of selecting from one.

use vstd::prelude::*;
use crate::price::PriceData;

verus! {

/// The observations of `history` whose timestamp lies in `start..=end`, in
/// stored order.
pub open spec fn in_range(history: Seq<PriceData>, start: u64, end: u64) -> Seq<PriceData> {
    history.filter(|p: PriceData| start <= p.timestamp <= end)
}

/// The last `n` observations of `history` in stored order, or all of it where
/// it holds fewer.
pub open spec fn last_n(history: Seq<PriceData>, n: nat) -> Seq<PriceData> {
    if n >= history.len() {
        history
    } else {
        history.subrange(history.len() - n, history.len() as int)
    }
}

/// The most recent observation of `history`, if it has any.
pub open spec fn latest_of(history: Seq<PriceData>) -> Option<PriceData> {
    if history.len() > 0 {
        Some(history.last())
    } else {
        None
    }
}

/// Whether a prune with these bounds keeps an observation made at
/// `timestamp`. With a bound missing everything is kept. With both given, an
/// observation is kept when it is later than `start` or earlier than `end`;
/// so the only ones dropped are those with `end <= timestamp <= start`.
pub open spec fn keeps(start: Option<u64>, end: Option<u64>, timestamp: u64) -> bool {
    match (start, end) {
        (Some(s), Some(e)) => s < timestamp || e > timestamp,
        _ => true,
    }
}

/// What a prune with these bounds leaves of `history`, in stored order.
pub open spec fn retained(history: Seq<PriceData>, start: Option<u64>, end: Option<u64>) -> Seq<
    PriceData,
> {
    history.filter(|p: PriceData| keeps(start, end, p.timestamp))
}

/// Timestamps never decrease along `history`.
pub open spec fn sorted(history: Seq<PriceData>) -> bool {
    forall|i: int, j: int| 0 <= i <= j < history.len() ==> history[i].timestamp <= history[j].timestamp
}

/// Decides the keep rule of a prune for one timestamp.
pub fn is_kept(start: Option<u64>, end: Option<u64>, timestamp: u64) -> (kept: bool)
    ensures
        kept == keeps(start, end, timestamp),
{
    match (start, end) {
        (Some(s), Some(e)) => s < timestamp || e > timestamp,
        _ => true,
    }
}

/// Selects the observations with `start <= timestamp <= end`.
pub fn select_range(history: &Vec<PriceData>, start: u64, end: u64) -> (found: Vec<PriceData>)
    ensures
        found@ == in_range(history@, start, end),
{
    let mut found: Vec<PriceData> = Vec::new();
    let mut i: usize = 0;
    assert(history@.take(0) =~= Seq::empty());
    while i < history.len()
        invariant
            i <= history.len(),
            found@ == in_range(history@.take(i as int), start, end),
        decreases history.len() - i,
    {
        let data = history[i];
        proof {
            let pred = |p: PriceData| start <= p.timestamp <= end;
            history@.take(i as int).lemma_filter_push(data, pred);
            history@.lemma_take_succ_push(i as int);
        }
        if data.timestamp >= start && data.timestamp <= end {
            found.push(data);
        }
        i += 1;
    }
    assert(history@.take(i as int) =~= history@);
    found
}

/// Selects the last `records` observations.
pub fn select_last(history: &Vec<PriceData>, records: u32) -> (found: Vec<PriceData>)
    ensures
        found@ == last_n(history@, records as nat),
{
    let len = history.len();
    let first: usize = if records as usize >= len {
        0
    } else {
        len - records as usize
    };
    let mut found: Vec<PriceData> = Vec::new();
    let mut i: usize = first;
    while i < len
        invariant
            first <= i <= len,
            len == history.len(),
            found@ == history@.subrange(first as int, i as int),
        decreases len - i,
    {
        found.push(history[i]);
        assert(history@.subrange(first as int, i + 1) =~= history@.subrange(first as int, i as int).push(
            history@[i as int],
        ));
        i += 1;
    }
    assert(first == 0 ==> history@.subrange(0, len as int) =~= history@);
    found
}

/// Selects what a prune with these bounds keeps.
pub fn select_retained(history: &Vec<PriceData>, start: Option<u64>, end: Option<u64>) -> (kept: Vec<
    PriceData,
>)
    ensures
        kept@ == retained(history@, start, end),
{
    let mut kept: Vec<PriceData> = Vec::new();
    let mut i: usize = 0;
    assert(history@.take(0) =~= Seq::empty());
    while i < history.len()
        invariant
            i <= history.len(),
            kept@ == retained(history@.take(i as int), start, end),
        decreases history.len() - i,
    {
        let data = history[i];
        proof {
            let pred = |p: PriceData| keeps(start, end, p.timestamp);
            history@.take(i as int).lemma_filter_push(data, pred);
            history@.lemma_take_succ_push(i as int);
        }
        if is_kept(start, end, data.timestamp) {
            kept.push(data);
        }
        i += 1;
    }
    assert(history@.take(i as int) =~= history@);
    kept
}

} // verus!
