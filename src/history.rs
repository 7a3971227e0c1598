//! The mathematical model of the clipboard history: a sequence of (key, text) pairs
//! kept in recency order, and the operations of the store stated over it.
use crate::date::{CaptureDate, EntryKey, lemma_recency_total, newer};
use vstd::prelude::*;

verus! {

/// The history as a sequence of (key, text), newest first.
pub type History = Seq<(EntryKey, Seq<char>)>;

/// Every entry is strictly newer than every entry after it.
pub open spec fn sorted_by_recency(h: History) -> bool {
    forall|i: int, j: int| 0 <= i < j < h.len() ==> newer(#[trigger] h[i].0, #[trigger] h[j].0)
}

/// Every sequence number is positive.
pub open spec fn positive_sequences(h: History) -> bool {
    forall|i: int| 0 <= i < h.len() ==> #[trigger] h[i].0.sequence >= 1
}

pub open spec fn has_key(h: History, k: EntryKey) -> bool {
    exists|i: int| 0 <= i < h.len() && #[trigger] h[i].0 == k
}

/// The largest sequence number stored for day `d`, or 0 when there is none.
pub open spec fn max_sequence(h: History, d: CaptureDate) -> nat
    decreases h.len(),
{
    if h.len() == 0 {
        0
    } else {
        let m = max_sequence(h.drop_first(), d);
        if h[0].0.date == d && h[0].0.sequence > m {
            h[0].0.sequence as nat
        } else {
            m
        }
    }
}

/// The entries of day `d` as (sequence, text), oldest first.
pub open spec fn entries_on(h: History, d: CaptureDate) -> Seq<(u64, Seq<char>)>
    decreases h.len(),
{
    if h.len() == 0 {
        Seq::empty()
    } else {
        let rest = entries_on(h.drop_first(), d);
        if h[0].0.date == d {
            rest.push((h[0].0.sequence, h[0].1))
        } else {
            rest
        }
    }
}

/// How many leading entries are newer than `k`: where an entry keyed `k` belongs.
pub open spec fn position(h: History, k: EntryKey) -> nat
    decreases h.len(),
{
    if h.len() == 0 {
        0
    } else if newer(h[0].0, k) {
        1 + position(h.drop_first(), k)
    } else {
        0
    }
}

/// The history with `e` placed at its place in recency order.
pub open spec fn insert_by_recency(h: History, e: (EntryKey, Seq<char>)) -> History {
    h.insert(position(h, e.0) as int, e)
}

/// What eviction keeps: the first `cap` entries.
pub open spec fn evict(h: History, cap: nat) -> History {
    if h.len() > cap {
        h.take(cap as int)
    } else {
        h
    }
}

/// What eviction drops: the entries after the first `cap`.
pub open spec fn evicted(h: History, cap: nat) -> History {
    if h.len() > cap {
        h.skip(cap as int)
    } else {
        Seq::empty()
    }
}

/// For each day, the largest sequence number ever issued on it (0 when none). Eviction
/// never lowers it, so a number once issued is never issued again.
pub type Marks = spec_fn(CaptureDate) -> nat;

/// Every stored sequence is at most the mark of its day.
pub open spec fn covered(h: History, mk: Marks) -> bool {
    forall|i: int| 0 <= i < h.len() ==> (#[trigger] h[i]).0.sequence <= mk(h[i].0.date)
}

/// The marks with day `d` raised to `s` (kept when already higher).
pub open spec fn raise(mk: Marks, d: CaptureDate, s: nat) -> Marks {
    |x: CaptureDate| if x == d && s > mk(x) { s } else { mk(x) }
}

/// The key that a write on day `d` receives: one above every sequence issued on that day.
pub open spec fn next_key(mk: Marks, d: CaptureDate) -> EntryKey {
    EntryKey { date: d, sequence: (mk(d) + 1) as u64 }
}

/// The history after a write of `t` on day `d` with capacity `cap`; unchanged when the
/// day's sequence numbers are used up.
pub open spec fn write_model(h: History, mk: Marks, cap: nat, d: CaptureDate, t: Seq<char>) -> History {
    if mk(d) >= u64::MAX {
        h
    } else {
        evict(insert_by_recency(h, (next_key(mk, d), t)), cap)
    }
}

/// The marks after a write on day `d`.
pub open spec fn marks_after_write(mk: Marks, d: CaptureDate) -> Marks {
    if mk(d) >= u64::MAX {
        mk
    } else {
        raise(mk, d, mk(d) + 1)
    }
}

/// The marks after writes on each day of `days` in turn.
pub open spec fn marks_after(mk: Marks, days: Seq<CaptureDate>) -> Marks
    decreases days.len(),
{
    if days.len() == 0 {
        mk
    } else {
        marks_after_write(marks_after(mk, days.drop_last()), days.last())
    }
}

/// The history after writing `ts[i]` on day `days[i]` for each `i` in turn.
pub open spec fn writes_on_days(h: History, mk: Marks, cap: nat, days: Seq<CaptureDate>, ts: Seq<Seq<char>>) -> History
    decreases ts.len(),
{
    if ts.len() == 0 || days.len() != ts.len() {
        h
    } else {
        write_model(
            writes_on_days(h, mk, cap, days.drop_last(), ts.drop_last()),
            marks_after(mk, days.drop_last()),
            cap,
            days.last(),
            ts.last(),
        )
    }
}

pub proof fn lemma_newer_transitive(a: EntryKey, b: EntryKey, c: EntryKey)
    requires
        newer(a, b),
        newer(b, c),
    ensures
        newer(a, c),
{
}

/// Every sequence number of day `d` is at most `max_sequence(h, d)`.
pub proof fn lemma_max_sequence_bounds(h: History, d: CaptureDate)
    ensures
        forall|i: int| 0 <= i < h.len() && h[i].0.date == d ==> h[i].0.sequence <= max_sequence(h, d),
        max_sequence(h, d) <= u64::MAX,
        max_sequence(h, d) == 0 || has_key(h, EntryKey { date: d, sequence: max_sequence(h, d) as u64 }),
    decreases h.len(),
{
    if h.len() > 0 {
        lemma_max_sequence_bounds(h.drop_first(), d);
        let m = max_sequence(h.drop_first(), d);
        assert forall|i: int| 0 <= i < h.len() && h[i].0.date == d implies h[i].0.sequence
            <= max_sequence(h, d) by {
            if i > 0 {
                assert(h[i] == h.drop_first()[i - 1]);
            }
        }
        if !(h[0].0.date == d && h[0].0.sequence > m) && m != 0 {
            let k = EntryKey { date: d, sequence: m as u64 };
            let j = choose|j: int| 0 <= j < h.drop_first().len() && h.drop_first()[j].0 == k;
            assert(h[j + 1].0 == k);
        }
    }
}

/// A bound on every sequence number of day `d` bounds `max_sequence(h, d)`.
pub proof fn lemma_max_sequence_at_most(h: History, d: CaptureDate, b: nat)
    requires
        forall|i: int| 0 <= i < h.len() && h[i].0.date == d ==> h[i].0.sequence <= b,
    ensures
        max_sequence(h, d) <= b,
    decreases h.len(),
{
    if h.len() > 0 {
        assert forall|i: int| 0 <= i < h.drop_first().len() && h.drop_first()[i].0.date == d implies h.drop_first()[i].0.sequence <= b by {
            assert(h.drop_first()[i] == h[i + 1]);
        }
        lemma_max_sequence_at_most(h.drop_first(), d, b);
    }
}

/// `position` splits a sorted history into the entries newer than `k` and the rest.
pub proof fn lemma_position(h: History, k: EntryKey)
    requires
        sorted_by_recency(h),
    ensures
        position(h, k) <= h.len(),
        forall|j: int| 0 <= j < position(h, k) ==> newer(#[trigger] h[j].0, k),
        forall|j: int| position(h, k) <= j < h.len() ==> !newer(#[trigger] h[j].0, k),
    decreases h.len(),
{
    if h.len() > 0 {
        let t = h.drop_first();
        assert(sorted_by_recency(t)) by {
            assert forall|i: int, j: int| 0 <= i < j < t.len() implies newer(#[trigger] t[i].0, #[trigger] t[j].0) by {
                assert(t[i] == h[i + 1] && t[j] == h[j + 1]);
            }
        }
        lemma_position(t, k);
        if newer(h[0].0, k) {
            assert forall|j: int| 0 <= j < position(h, k) implies newer(#[trigger] h[j].0, k) by {
                if j > 0 {
                    assert(h[j] == t[j - 1]);
                }
            }
            assert forall|j: int| position(h, k) <= j < h.len() implies !newer(#[trigger] h[j].0, k) by {
                assert(h[j] == t[j - 1]);
            }
        } else {
            assert forall|j: int| position(h, k) <= j < h.len() implies !newer(#[trigger] h[j].0, k) by {
                if j > 0 && newer(h[j].0, k) {
                    assert(newer(h[0].0, h[j].0));
                    lemma_newer_transitive(h[0].0, h[j].0, k);
                }
            }
        }
    }
}

/// Placing an entry with a new key keeps the history sorted.
pub proof fn lemma_insert_sorted(h: History, e: (EntryKey, Seq<char>))
    requires
        sorted_by_recency(h),
        !has_key(h, e.0),
    ensures
        sorted_by_recency(insert_by_recency(h, e)),
        insert_by_recency(h, e).len() == h.len() + 1,
{
    lemma_position(h, e.0);
    let p = position(h, e.0) as int;
    let s = insert_by_recency(h, e);
    assert forall|i: int, j: int| 0 <= i < j < s.len() implies newer(#[trigger] s[i].0, #[trigger] s[j].0) by {
        if j < p {
            assert(s[i] == h[i] && s[j] == h[j]);
        } else if j == p {
            assert(s[i] == h[i]);
        } else if i < p {
            assert(s[i] == h[i] && s[j] == h[j - 1]);
            lemma_newer_transitive(h[i].0, e.0, h[j - 1].0);
        } else if i == p {
            assert(s[j] == h[j - 1]);
            assert(h[j - 1].0 != e.0);
        } else {
            assert(s[i] == h[i - 1] && s[j] == h[j - 1]);
        }
    }
}

/// Eviction keeps a sorted history sorted.
pub proof fn lemma_evict_sorted(h: History, cap: nat)
    requires
        sorted_by_recency(h),
    ensures
        sorted_by_recency(evict(h, cap)),
{
    let s = evict(h, cap);
    assert forall|i: int, j: int| 0 <= i < j < s.len() implies newer(#[trigger] s[i].0, #[trigger] s[j].0) by {
        assert(s[i] == h[i] && s[j] == h[j]);
    }
}

/// A prefix of a sorted history is sorted.
pub proof fn lemma_prefix_sorted(h: History, n: nat)
    requires
        sorted_by_recency(h),
        n <= h.len(),
    ensures
        sorted_by_recency(h.take(n as int)),
{
    let s = h.take(n as int);
    assert forall|i: int, j: int| 0 <= i < j < s.len() implies newer(#[trigger] s[i].0, #[trigger] s[j].0) by {
        assert(s[i] == h[i] && s[j] == h[j]);
    }
}

/// The suffix of a sorted history after its first entry is sorted.
pub proof fn lemma_rest_sorted(h: History)
    requires
        sorted_by_recency(h),
        h.len() > 0,
    ensures
        sorted_by_recency(h.drop_first()),
{
    let t = h.drop_first();
    assert forall|i: int, j: int| 0 <= i < j < t.len() implies newer(#[trigger] t[i].0, #[trigger] t[j].0) by {
        assert(t[i] == h[i + 1] && t[j] == h[j + 1]);
    }
}

/// In a sorted history the entries of one day come out with strictly ascending sequences,
/// each below `max_sequence` or equal to it.
pub proof fn lemma_entries_on_ascending(h: History, d: CaptureDate)
    requires
        sorted_by_recency(h),
        positive_sequences(h),
    ensures
        forall|i: int, j: int|
            0 <= i < j < entries_on(h, d).len() ==> entries_on(h, d)[i].0 < entries_on(h, d)[j].0,
        forall|i: int| 0 <= i < entries_on(h, d).len() ==> entries_on(h, d)[i].0 <= max_sequence(h, d),
    decreases h.len(),
{
    if h.len() > 0 {
        let t = h.drop_first();
        lemma_rest_sorted(h);
        assert(positive_sequences(t)) by {
            assert forall|i: int| 0 <= i < t.len() implies #[trigger] t[i].0.sequence >= 1 by {
                assert(t[i] == h[i + 1]);
            }
        }
        lemma_entries_on_ascending(t, d);
        lemma_max_sequence_bounds(t, d);
        if h[0].0.date == d {
            assert(h[0].0.sequence >= 1);
            assert forall|j: int| 0 <= j < t.len() && t[j].0.date == d implies t[j].0.sequence < h[0].0.sequence by {
                assert(t[j] == h[j + 1]);
                assert(newer(h[0].0, h[j + 1].0));
            }
            lemma_max_sequence_below(t, d, h[0].0.sequence as nat);
            let e = entries_on(h, d);
            let et = entries_on(t, d);
            assert(e == et.push((h[0].0.sequence, h[0].1)));
            assert forall|i: int, j: int| 0 <= i < j < e.len() implies e[i].0 < e[j].0 by {
                assert(e[i] == et[i]);
                if j < et.len() {
                    assert(e[j] == et[j]);
                }
            }
            assert forall|i: int| 0 <= i < e.len() implies e[i].0 <= max_sequence(h, d) by {
                if i < et.len() {
                    assert(e[i] == et[i]);
                }
            }
        } else {
            assert(entries_on(h, d) == entries_on(t, d));
        }
    }
}

/// A strict bound on every sequence number of day `d` bounds `max_sequence` strictly,
/// unless the day has no entries.
pub proof fn lemma_max_sequence_below(h: History, d: CaptureDate, b: nat)
    requires
        b >= 1,
        forall|i: int| 0 <= i < h.len() && h[i].0.date == d ==> h[i].0.sequence < b,
    ensures
        max_sequence(h, d) < b,
    decreases h.len(),
{
    if h.len() > 0 {
        assert forall|i: int| 0 <= i < h.drop_first().len() && h.drop_first()[i].0.date == d implies h.drop_first()[i].0.sequence < b by {
            assert(h.drop_first()[i] == h[i + 1]);
        }
        lemma_max_sequence_below(h.drop_first(), d, b);
    }
}

pub proof fn lemma_position_bound(h: History, k: EntryKey)
    ensures
        position(h, k) <= h.len(),
    decreases h.len(),
{
    if h.len() > 0 {
        lemma_position_bound(h.drop_first(), k);
    }
}

/// Placing an entry of day `d` whose sequence exceeds every sequence of that day appends
/// it to the day's entries and makes its sequence the day's largest.
pub proof fn lemma_insert_newest_of_day(h: History, d: CaptureDate, e: (EntryKey, Seq<char>))
    requires
        e.0.date == d,
        e.0.sequence >= 1,
        forall|i: int| 0 <= i < h.len() && h[i].0.date == d ==> h[i].0.sequence < e.0.sequence,
    ensures
        entries_on(insert_by_recency(h, e), d) == entries_on(h, d).push((e.0.sequence, e.1)),
        max_sequence(insert_by_recency(h, e), d) == e.0.sequence,
    decreases h.len(),
{
    let s = insert_by_recency(h, e);
    lemma_position_bound(h, e.0);
    lemma_max_sequence_below(h, d, e.0.sequence as nat);
    if h.len() == 0 || !newer(h[0].0, e.0) {
        assert(position(h, e.0) == 0);
        assert(s.drop_first() =~= h);
    } else {
        let t = h.drop_first();
        assert(h[0].0.date != d);
        assert forall|i: int| 0 <= i < t.len() && t[i].0.date == d implies t[i].0.sequence < e.0.sequence by {
            assert(t[i] == h[i + 1]);
        }
        lemma_insert_newest_of_day(t, d, e);
        lemma_position_bound(t, e.0);
        assert(position(h, e.0) == 1 + position(t, e.0));
        assert(s.drop_first() =~= insert_by_recency(t, e));
        assert(s[0] == h[0]);
        lemma_max_sequence_below(t, d, e.0.sequence as nat);
    }
}

/// Placing an entry with a positive sequence keeps every sequence positive.
pub proof fn lemma_insert_positive(h: History, e: (EntryKey, Seq<char>))
    requires
        positive_sequences(h),
        e.0.sequence >= 1,
    ensures
        positive_sequences(insert_by_recency(h, e)),
{
    let s = insert_by_recency(h, e);
    let p = position(h, e.0) as int;
    lemma_position_bound(h, e.0);
    assert forall|i: int| 0 <= i < s.len() implies #[trigger] s[i].0.sequence >= 1 by {
        if i < p {
            assert(s[i] == h[i]);
        } else if i > p {
            assert(s[i] == h[i - 1]);
        }
    }
}

/// The store keeps the most recent entries: eviction keeps `min(len, cap)` entries and
/// drops the rest, and every kept entry is newer than every dropped one.
pub proof fn lemma_eviction_keeps_most_recent(h: History, cap: nat)
    requires
        sorted_by_recency(h),
    ensures
        evict(h, cap).len() == if h.len() < cap { h.len() } else { cap },
        evict(h, cap) + evicted(h, cap) == h,
        forall|i: int, j: int|
            0 <= i < evict(h, cap).len() && 0 <= j < evicted(h, cap).len() ==> newer(
                #[trigger] evict(h, cap)[i].0,
                #[trigger] evicted(h, cap)[j].0,
            ),
{
    let k = evict(h, cap);
    let x = evicted(h, cap);
    assert(k + x =~= h);
    assert forall|i: int, j: int| 0 <= i < k.len() && 0 <= j < x.len() implies newer(#[trigger] k[i].0, #[trigger] x[j].0) by {
        assert(k[i] == h[i] && x[j] == h[k.len() + j]);
    }
}

/// Writing texts one after another on a day on which nothing was ever issued, with room
/// for all of them, gives that day the sequences 1, 2, ..., N in order, each holding its
/// text.
pub proof fn lemma_sequential_writes(
    h: History,
    mk: Marks,
    cap: nat,
    d: CaptureDate,
    days: Seq<CaptureDate>,
    ts: Seq<Seq<char>>,
)
    requires
        sorted_by_recency(h),
        positive_sequences(h),
        covered(h, mk),
        mk(d) == 0,
        days.len() == ts.len(),
        forall|i: int| 0 <= i < days.len() ==> #[trigger] days[i] == d,
        h.len() + ts.len() <= cap,
        ts.len() <= u64::MAX,
    ensures
        entries_on(writes_on_days(h, mk, cap, days, ts), d) == Seq::new(ts.len(), |i: int| ((i + 1) as u64, ts[i])),
        writes_on_days(h, mk, cap, days, ts).len() == h.len() + ts.len(),
        marks_after(mk, days)(d) == ts.len(),
    decreases ts.len(),
{
    if ts.len() == 0 {
        assert forall|i: int| 0 <= i < h.len() implies (#[trigger] h[i]).0.date != d by {
            if h[i].0.date == d {
                assert(h[i].0.sequence >= 1);
            }
        }
        lemma_no_entries_on(h, d);
        assert(entries_on(h, d) =~= Seq::new(0, |i: int| ((i + 1) as u64, ts[i])));
    } else {
        let n = ts.len() - 1;
        let pd = days.drop_last();
        let pt = ts.drop_last();
        assert forall|i: int| 0 <= i < pd.len() implies #[trigger] pd[i] == d by {
            assert(pd[i] == days[i]);
        }
        assert(days.last() == d);
        lemma_sequential_writes(h, mk, cap, d, pd, pt);
        lemma_writes_within_capacity(h, mk, cap, pd, pt);
        let w = writes_on_days(h, mk, cap, pd, pt);
        let m = marks_after(mk, pd);
        let k = next_key(m, d);
        let e = (k, ts.last());
        assert(k.sequence == n + 1);
        lemma_next_key_fresh(w, m, d);
        lemma_insert_sorted(w, e);
        lemma_insert_newest_of_day(w, d, e);
        assert(writes_on_days(h, mk, cap, days, ts) == evict(insert_by_recency(w, e), cap));
        assert(entries_on(writes_on_days(h, mk, cap, days, ts), d) =~= Seq::new(ts.len(), |i: int| ((i + 1) as u64, ts[i])));
    }
}

/// A day without entries has none to list.
pub proof fn lemma_no_entries_on(h: History, d: CaptureDate)
    requires
        forall|i: int| 0 <= i < h.len() ==> (#[trigger] h[i]).0.date != d,
    ensures
        entries_on(h, d) == Seq::<(u64, Seq<char>)>::empty(),
    decreases h.len(),
{
    if h.len() > 0 {
        let t = h.drop_first();
        assert forall|i: int| 0 <= i < t.len() implies (#[trigger] t[i]).0.date != d by {
            assert(t[i] == h[i + 1]);
        }
        lemma_no_entries_on(t, d);
    }
}

/// Two writes in a row on one day receive consecutive sequence numbers, whichever text
/// comes first, and whatever eviction does in between: writers serialised by one lock
/// never collide and leave no gap.
pub proof fn lemma_consecutive_writes(mk: Marks, d: CaptureDate)
    requires
        mk(d) + 2 <= u64::MAX,
    ensures
        next_key(marks_after_write(mk, d), d).sequence == next_key(mk, d).sequence + 1,
        next_key(mk, d).date == d && next_key(marks_after_write(mk, d), d).date == d,
{
}

/// Writes never lower a mark, so every later write on a day receives a sequence above
/// every sequence issued on it before.
pub proof fn lemma_marks_grow(mk: Marks, days: Seq<CaptureDate>)
    ensures
        forall|x: CaptureDate| #[trigger] marks_after(mk, days)(x) >= mk(x),
    decreases days.len(),
{
    if days.len() > 0 {
        lemma_marks_grow(mk, days.drop_last());
        let m = marks_after(mk, days.drop_last());
        assert forall|x: CaptureDate| #[trigger] marks_after(mk, days)(x) >= mk(x) by {
            assert(marks_after(mk, days) == marks_after_write(m, days.last()));
            assert(m(x) >= mk(x));
        }
    }
}

/// The key that a write receives is not yet present, and is above every stored sequence
/// of its day.
pub proof fn lemma_next_key_fresh(h: History, mk: Marks, d: CaptureDate)
    requires
        covered(h, mk),
        mk(d) < u64::MAX,
    ensures
        !has_key(h, next_key(mk, d)),
        next_key(mk, d).sequence >= 1,
        forall|i: int| 0 <= i < h.len() && h[i].0.date == d ==> h[i].0.sequence < next_key(mk, d).sequence,
{
    if has_key(h, next_key(mk, d)) {
        let j = choose|j: int| 0 <= j < h.len() && #[trigger] h[j].0 == next_key(mk, d);
        assert(h[j].0.sequence <= mk(h[j].0.date));
    }
    assert forall|i: int| 0 <= i < h.len() && h[i].0.date == d implies h[i].0.sequence < next_key(mk, d).sequence by {
        assert(h[i].0.sequence <= mk(h[i].0.date));
    }
}

/// One write keeps a history sorted, with positive sequences, covered by the marks and
/// within capacity.
pub proof fn lemma_write_model_wf(h: History, mk: Marks, cap: nat, d: CaptureDate, t: Seq<char>)
    requires
        sorted_by_recency(h),
        positive_sequences(h),
        covered(h, mk),
        h.len() <= cap,
    ensures
        sorted_by_recency(write_model(h, mk, cap, d, t)),
        positive_sequences(write_model(h, mk, cap, d, t)),
        covered(write_model(h, mk, cap, d, t), marks_after_write(mk, d)),
        write_model(h, mk, cap, d, t).len() <= cap,
{
    if mk(d) < u64::MAX {
        let k = next_key(mk, d);
        let e = (k, t);
        let m2 = marks_after_write(mk, d);
        lemma_next_key_fresh(h, mk, d);
        lemma_insert_sorted(h, e);
        lemma_insert_positive(h, e);
        lemma_position_bound(h, k);
        let s = insert_by_recency(h, e);
        let p = position(h, k) as int;
        assert forall|i: int| 0 <= i < s.len() implies (#[trigger] s[i]).0.sequence <= m2(s[i].0.date) by {
            if i < p {
                assert(s[i] == h[i]);
                assert(h[i].0.sequence <= mk(h[i].0.date));
            } else if i > p {
                assert(s[i] == h[i - 1]);
                assert(h[i - 1].0.sequence <= mk(h[i - 1].0.date));
            }
        }
        lemma_evict_sorted(s, cap);
        let r = evict(s, cap);
        assert forall|i: int| 0 <= i < r.len() implies #[trigger] r[i].0.sequence >= 1 by {
            assert(r[i] == s[i]);
        }
        assert forall|i: int| 0 <= i < r.len() implies (#[trigger] r[i]).0.sequence <= m2(r[i].0.date) by {
            assert(r[i] == s[i]);
        }
    }
}

/// After any number of writes on any days, the history stays sorted by recency, covered
/// by the marks, and holds at most `cap` entries.
pub proof fn lemma_writes_within_capacity(
    h: History,
    mk: Marks,
    cap: nat,
    days: Seq<CaptureDate>,
    ts: Seq<Seq<char>>,
)
    requires
        sorted_by_recency(h),
        positive_sequences(h),
        covered(h, mk),
        h.len() <= cap,
        days.len() == ts.len(),
    ensures
        sorted_by_recency(writes_on_days(h, mk, cap, days, ts)),
        positive_sequences(writes_on_days(h, mk, cap, days, ts)),
        covered(writes_on_days(h, mk, cap, days, ts), marks_after(mk, days)),
        writes_on_days(h, mk, cap, days, ts).len() <= cap,
    decreases ts.len(),
{
    if ts.len() > 0 {
        lemma_writes_within_capacity(h, mk, cap, days.drop_last(), ts.drop_last());
        lemma_write_model_wf(
            writes_on_days(h, mk, cap, days.drop_last(), ts.drop_last()),
            marks_after(mk, days.drop_last()),
            cap,
            days.last(),
            ts.last(),
        );
    }
}

/// What one write evicts: nothing when the day's sequences are used up.
pub open spec fn write_evicted(h: History, mk: Marks, cap: nat, d: CaptureDate, t: Seq<char>) -> History {
    if mk(d) >= u64::MAX {
        Seq::empty()
    } else {
        evicted(insert_by_recency(h, (next_key(mk, d), t)), cap)
    }
}

/// Everything that writing `ts[i]` on day `days[i]` for each `i` in turn evicts, in order.
pub open spec fn evicted_by_writes(h: History, mk: Marks, cap: nat, days: Seq<CaptureDate>, ts: Seq<Seq<char>>) -> History
    decreases ts.len(),
{
    if ts.len() == 0 || days.len() != ts.len() {
        Seq::empty()
    } else {
        evicted_by_writes(h, mk, cap, days.drop_last(), ts.drop_last()) + write_evicted(
            writes_on_days(h, mk, cap, days.drop_last(), ts.drop_last()),
            marks_after(mk, days.drop_last()),
            cap,
            days.last(),
            ts.last(),
        )
    }
}

/// After any sequence of writes the store holds the most recent entries: every entry it
/// still holds is newer than every entry that any of the writes evicted, and once anything
/// has been evicted the store is full.
pub proof fn lemma_writes_keep_most_recent(
    h: History,
    mk: Marks,
    cap: nat,
    days: Seq<CaptureDate>,
    ts: Seq<Seq<char>>,
)
    requires
        sorted_by_recency(h),
        positive_sequences(h),
        covered(h, mk),
        h.len() <= cap,
        days.len() == ts.len(),
    ensures
        evicted_by_writes(h, mk, cap, days, ts).len() > 0 ==> writes_on_days(h, mk, cap, days, ts).len() == cap,
        forall|i: int, j: int|
            0 <= i < writes_on_days(h, mk, cap, days, ts).len() && 0 <= j < evicted_by_writes(h, mk, cap, days, ts).len()
                ==> newer(
                #[trigger] writes_on_days(h, mk, cap, days, ts)[i].0,
                #[trigger] evicted_by_writes(h, mk, cap, days, ts)[j].0,
            ),
    decreases ts.len(),
{
    if ts.len() > 0 {
        let pd = days.drop_last();
        let pt = ts.drop_last();
        let d = days.last();
        let t = ts.last();
        lemma_writes_keep_most_recent(h, mk, cap, pd, pt);
        lemma_writes_within_capacity(h, mk, cap, pd, pt);
        let prev = writes_on_days(h, mk, cap, pd, pt);
        let m = marks_after(mk, pd);
        let log = evicted_by_writes(h, mk, cap, pd, pt);
        let cur = writes_on_days(h, mk, cap, days, ts);
        let all = evicted_by_writes(h, mk, cap, days, ts);
        assert(cur == write_model(prev, m, cap, d, t));
        assert(all == log + write_evicted(prev, m, cap, d, t));
        if m(d) >= u64::MAX {
            assert(all =~= log);
        } else {
            let e = (next_key(m, d), t);
            lemma_next_key_fresh(prev, m, d);
            lemma_insert_sorted(prev, e);
            lemma_position(prev, e.0);
            let s = insert_by_recency(prev, e);
            let x = evicted(s, cap);
            let p = position(prev, e.0) as int;
            assert(cur == evict(s, cap));
            assert(all == log + x);
            lemma_eviction_keeps_most_recent(s, cap);
            assert forall|i: int, j: int| 0 <= i < cur.len() && 0 <= j < all.len() implies newer(
                #[trigger] cur[i].0,
                #[trigger] all[j].0,
            ) by {
                assert(cur[i] == s[i]);
                if j >= log.len() {
                    assert(all[j] == x[j - log.len()]);
                } else {
                    assert(all[j] == log[j]);
                    if i < p {
                        assert(s[i] == prev[i]);
                    } else if i > p {
                        assert(s[i] == prev[i - 1]);
                    } else {
                        assert(s[i] == e);
                        if !newer(e.0, log[j].0) {
                            lemma_recency_total(e.0, log[j].0);
                            assert forall|k: int| 0 <= k < prev.len() implies newer(#[trigger] prev[k].0, e.0) by {
                                assert(newer(prev[k].0, log[j].0));
                                if e.0 != log[j].0 {
                                    lemma_newer_transitive(prev[k].0, log[j].0, e.0);
                                }
                            }
                            if p < prev.len() {
                                assert(newer(prev[p].0, e.0));
                            }
                        }
                    }
                }
            }
        }
    }
}

} // verus!
