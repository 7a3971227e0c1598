//! The clipboard store: captured texts keyed by day and sequence, kept in recency order
//! and bounded by a maximum item count.
use crate::date::{CaptureDate, EntryKey, local_today, newer};
use crate::history::{
    History, Marks, covered, entries_on, evict, evicted, has_key, insert_by_recency,
    lemma_entries_on_ascending, lemma_evict_sorted, lemma_insert_sorted, lemma_max_sequence_at_most,
    lemma_max_sequence_bounds, lemma_next_key_fresh, lemma_position, lemma_prefix_sorted,
    marks_after_write, max_sequence, next_key, position, positive_sequences, raise,
    sorted_by_recency, write_model,
};
use crate::memo::{
    MemoData, MemoItem, Memos, has_memo, max_memo_sequence, memos_sorted, remove_memo, upsert_memo,
};
use vstd::prelude::*;
use vstd::string::StringExecFns;

verus! {

/// A captured text with its day and its sequence number within that day.
#[derive(Debug)]
pub struct ClipboardItem {
    pub date: CaptureDate,
    pub sequence: u64,
    pub content: String,
}

impl View for ClipboardItem {
    type V = (EntryKey, Seq<char>);

    open spec fn view(&self) -> (EntryKey, Seq<char>) {
        (EntryKey { date: self.date, sequence: self.sequence }, self.content@)
    }
}

impl ClipboardItem {
    pub fn key(&self) -> (r: EntryKey)
        ensures
            r == self@.0,
    {
        EntryKey { date: self.date, sequence: self.sequence }
    }

    pub fn duplicate(&self) -> (r: ClipboardItem)
        ensures
            r@ == self@,
    {
        ClipboardItem { date: self.date, sequence: self.sequence, content: self.content.clone() }
    }
}

/// What a write did: the key it stored the text under, and the keys that eviction removed.
#[derive(Debug)]
pub struct WriteReceipt {
    pub key: EntryKey,
    pub evicted: Vec<EntryKey>,
}

/// The keys of a history, in order.
pub open spec fn keys_of(h: History) -> Seq<EntryKey> {
    h.map_values(|e: (EntryKey, Seq<char>)| e.0)
}

/// The clipboard history, and the memos kept beside it. Writing and evicting happen in
/// one call, so no reader ever sees more than `max_items` entries. Memos live in their own
/// sequence namespace and are not removed by eviction.
pub struct ClipboardData {
    items: Vec<ClipboardItem>,
    max_items: usize,
    memos: MemoData,
    marks: Vec<(CaptureDate, u64)>,
}

/// The largest sequence that a list of (day, sequence) records gives day `d`, or 0.
pub open spec fn mark_of(s: Seq<(CaptureDate, u64)>, d: CaptureDate) -> nat
    decreases s.len(),
{
    if s.len() == 0 {
        0
    } else {
        let m = mark_of(s.drop_last(), d);
        if s.last().0 == d && s.last().1 > m {
            s.last().1 as nat
        } else {
            m
        }
    }
}

impl View for ClipboardData {
    type V = History;

    closed spec fn view(&self) -> History {
        self.items@.map_values(|e: ClipboardItem| e@)
    }
}

impl ClipboardData {
    /// The maximum number of entries kept.
    pub closed spec fn capacity(&self) -> nat {
        self.max_items as nat
    }

    /// The memos, highest sequence first.
    pub closed spec fn memo_view(&self) -> Memos {
        self.memos@
    }

    /// For each day, the largest sequence ever issued on it: eviction never lowers it.
    pub closed spec fn marks(&self) -> Marks {
        |d: CaptureDate| mark_of(self.marks@, d)
    }

    pub open spec fn wf(&self) -> bool {
        &&& sorted_by_recency(self@)
        &&& positive_sequences(self@)
        &&& covered(self@, self.marks())
        &&& self@.len() <= self.capacity()
        &&& memos_sorted(self.memo_view())
    }

    pub fn new(max_items: usize) -> (r: ClipboardData)
        ensures
            r.wf(),
            r@ == Seq::<(EntryKey, Seq<char>)>::empty(),
            r.memo_view() == Seq::<(u64, Seq<char>)>::empty(),
            forall|d: CaptureDate| #[trigger] r.marks()(d) == 0,
            r.capacity() == max_items,
    {
        let r = ClipboardData { items: Vec::new(), max_items, memos: MemoData::new(), marks: Vec::new() };
        assert(r@ =~= Seq::<(EntryKey, Seq<char>)>::empty());
        r
    }

    pub fn max_items(&self) -> (r: usize)
        ensures
            r == self.capacity(),
    {
        self.max_items
    }

    pub fn len(&self) -> (r: usize)
        ensures
            r == self@.len(),
    {
        self.items.len()
    }

    /// The largest sequence ever issued on `date`, or 0.
    fn issued_sequence(&self, date: &CaptureDate) -> (r: u64)
        ensures
            r == self.marks()(*date),
    {
        let ghost m = self.marks@;
        let mut r: u64 = 0;
        let mut i: usize = 0;
        assert(m.take(0) =~= Seq::<(CaptureDate, u64)>::empty());
        while i < self.marks.len()
            invariant
                i <= self.marks.len(),
                m == self.marks@,
                r == mark_of(m.take(i as int), *date),
            decreases self.marks.len() - i,
        {
            assert(m.take(i + 1).drop_last() =~= m.take(i as int));
            if self.marks[i].0 == *date && self.marks[i].1 > r {
                r = self.marks[i].1;
            }
            i = i + 1;
        }
        assert(m.take(i as int) =~= m);
        r
    }

    /// Raises the mark of `date` to `s`, or keeps it when it is already higher.
    fn raise_mark(&mut self, date: CaptureDate, s: u64)
        requires
            old(self).wf(),
        ensures
            final(self).wf(),
            final(self).marks() == raise(old(self).marks(), date, s as nat),
            final(self)@ == old(self)@,
            final(self).capacity() == old(self).capacity(),
            final(self).memo_view() == old(self).memo_view(),
    {
        let ghost m = self.marks@;
        let ghost old_marks = self.marks();
        let n = self.marks.len();
        if n > 0 && self.marks[n - 1].0 == date {
            if self.marks[n - 1].1 < s {
                self.marks.set(n - 1, (date, s));
                assert(self.marks@.drop_last() =~= m.drop_last());
            }
        } else {
            self.marks.push((date, s));
            assert(self.marks@.drop_last() =~= m);
        }
        assert(self.marks() =~= raise(old_marks, date, s as nat));
        assert forall|i: int| 0 <= i < self@.len() implies (#[trigger] self@[i]).0.sequence <= self.marks()(self@[i].0.date) by {
            assert(self@[i].0.sequence <= old_marks(self@[i].0.date));
        }
    }

    /// Raises the mark of `date` to `sequence`, as records read back from persistent
    /// storage require; a lower `sequence` changes nothing.
    pub fn restore_mark(&mut self, date: CaptureDate, sequence: u64)
        requires
            old(self).wf(),
        ensures
            final(self).wf(),
            final(self).marks() == raise(old(self).marks(), date, sequence as nat),
            final(self)@ == old(self)@,
            final(self).capacity() == old(self).capacity(),
            final(self).memo_view() == old(self).memo_view(),
    {
        self.raise_mark(date, sequence)
    }

    /// The largest sequence ever issued on `date`, or 0.
    pub fn issued(&self, date: &CaptureDate) -> (r: u64)
        ensures
            r == self.marks()(*date),
    {
        self.issued_sequence(date)
    }

    /// Where an entry keyed `key` belongs in recency order.
    fn insertion_point(&self, key: &EntryKey) -> (r: usize)
        requires
            sorted_by_recency(self@),
        ensures
            r == position(self@, *key),
    {
        let ghost h = self@;
        proof {
            lemma_position(h, *key);
        }
        let mut i: usize = 0;
        while i < self.items.len() && self.items[i].key().is_newer_than(key)
            invariant
                i <= self.items.len(),
                h == self@,
                forall|j: int| 0 <= j < i ==> newer(#[trigger] h[j].0, *key),
            decreases self.items.len() - i,
        {
            i = i + 1;
        }
        proof {
            if i < position(h, *key) {
                assert(newer(h[i as int].0, *key));
            }
            if i > position(h, *key) {
                let p = position(h, *key) as int;
                assert(newer(h[p].0, *key));
            }
        }
        i
    }

    /// Stores `text` under a key that is not yet present, then drops the entries beyond
    /// `max_items` in recency order.
    fn insert_and_evict(&mut self, key: EntryKey, text: String) -> (evicted_keys: Vec<EntryKey>)
        requires
            old(self).wf(),
            !has_key(old(self)@, key),
            key.sequence >= 1,
            key.sequence <= old(self).marks()(key.date),
        ensures
            final(self).wf(),
            final(self).marks() == old(self).marks(),
            final(self).capacity() == old(self).capacity(),
            final(self).memo_view() == old(self).memo_view(),
            final(self)@ == evict(insert_by_recency(old(self)@, (key, text@)), old(self).capacity()),
            evicted_keys@ == keys_of(evicted(insert_by_recency(old(self)@, (key, text@)), old(self).capacity())),
    {
        let ghost h = self@;
        let ghost e = (key, text@);
        let p = self.insertion_point(&key);
        proof {
            lemma_position(h, key);
            lemma_insert_sorted(h, e);
        }
        assert(self.items@.len() == h.len());
        self.items.insert(p, ClipboardItem { date: key.date, sequence: key.sequence, content: text });
        let ghost s = insert_by_recency(h, e);
        assert(self@ =~= s);
        proof {
            lemma_evict_sorted(s, self.max_items as nat);
        }
        let mut out: Vec<EntryKey> = Vec::new();
        if self.items.len() > self.max_items {
            let tail = self.items.split_off(self.max_items);
            let mut i: usize = 0;
            while i < tail.len()
                invariant
                    i <= tail.len(),
                    tail@.map_values(|e: ClipboardItem| e@) =~= s.skip(self.max_items as int),
                    out@ =~= keys_of(s.skip(self.max_items as int).take(i as int)),
                decreases tail.len() - i,
            {
                let ghost sk = s.skip(self.max_items as int);
                assert(sk[i as int] == tail@[i as int]@);
                out.push(tail[i].key());
                assert(sk.take(i + 1) =~= sk.take(i as int).push(sk[i as int]));
                i = i + 1;
            }
            assert(s.skip(self.max_items as int).take(i as int) =~= s.skip(self.max_items as int));
            assert(self@ =~= s.take(self.max_items as int));
        } else {
            assert(out@ =~= keys_of(evicted(s, self.max_items as nat)));
        }
        assert(positive_sequences(self@)) by {
            assert forall|i: int| 0 <= i < self@.len() implies #[trigger] self@[i].0.sequence >= 1 by {
                let q = position(h, key) as int;
                if i < q && i < h.len() {
                    assert(self@[i] == h[i]);
                } else if i > q {
                    assert(self@[i] == h[i - 1]);
                }
            }
        }
        out
    }

    /// Stores `text` on `date` under one more than the largest sequence ever issued on
    /// that day (1 on a day never written), then evicts. A number once issued is never
    /// issued again, even after eviction removed its entry. Fails only when that day's
    /// sequence numbers are used up.
    pub fn write_on(&mut self, date: CaptureDate, text: &str) -> (r: Option<WriteReceipt>)
        requires
            old(self).wf(),
        ensures
            final(self).wf(),
            final(self).capacity() == old(self).capacity(),
            final(self).memo_view() == old(self).memo_view(),
            final(self)@ == write_model(old(self)@, old(self).marks(), old(self).capacity(), date, text@),
            final(self).marks() == marks_after_write(old(self).marks(), date),
            r is None <==> old(self).marks()(date) >= u64::MAX,
            r matches Some(rc) ==> {
                &&& rc.key == next_key(old(self).marks(), date)
                &&& rc.evicted@ == keys_of(evicted(insert_by_recency(old(self)@, (rc.key, text@)), old(self).capacity()))
                &&& forall|i: int| 0 <= i < old(self)@.len() && (#[trigger] old(self)@[i]).0.date == date
                    ==> old(self)@[i].0.sequence < rc.key.sequence
                &&& final(self).marks()(date) == rc.key.sequence
            },
            old(self).marks()(date) == 0 ==> (r matches Some(rc) && rc.key.sequence == 1),
            has_key(old(self)@, EntryKey { date, sequence: old(self).marks()(date) as u64 }) ==> (r matches Some(
                rc,
            ) ==> rc.key.sequence == max_sequence(old(self)@, date) + 1),
    {
        let last = self.issued_sequence(&date);
        let ghost h = self@;
        let ghost mk = self.marks();
        proof {
            if has_key(h, EntryKey { date, sequence: mk(date) as u64 }) {
                lemma_max_sequence_bounds(h, date);
                let j = choose|j: int| 0 <= j < h.len() && #[trigger] h[j].0 == EntryKey { date, sequence: mk(date) as u64 };
                assert(h[j].0.date == date);
                assert forall|i: int| 0 <= i < h.len() && h[i].0.date == date implies h[i].0.sequence <= mk(date) by {
                    assert(h[i].0.sequence <= mk(h[i].0.date));
                }
                lemma_max_sequence_at_most(h, date, mk(date));
            }
        }
        if last == u64::MAX {
            return None;
        }
        let key = EntryKey { date, sequence: last + 1 };
        proof {
            lemma_next_key_fresh(h, mk, date);
        }
        self.raise_mark(date, last + 1);
        let evicted_keys = self.insert_and_evict(key, String::from_str(text));
        Some(WriteReceipt { key, evicted: evicted_keys })
    }

    /// Stores `text` on today's local date, as `write_on` does.
    pub fn write(&mut self, text: &str) -> (r: Option<WriteReceipt>)
        requires
            old(self).wf(),
        ensures
            final(self).wf(),
            final(self).capacity() == old(self).capacity(),
            final(self).memo_view() == old(self).memo_view(),
            r matches Some(rc) ==> {
                &&& rc.key.date.wf()
                &&& old(self).marks()(rc.key.date) < u64::MAX
                &&& rc.key == next_key(old(self).marks(), rc.key.date)
                &&& final(self)@ == write_model(old(self)@, old(self).marks(), old(self).capacity(), rc.key.date, text@)
                &&& final(self).marks() == marks_after_write(old(self).marks(), rc.key.date)
            },
            r is None ==> final(self)@ == old(self)@ && final(self).marks() == old(self).marks(),
            r is None ==> exists|d: CaptureDate| d.wf() && #[trigger] old(self).marks()(d) >= u64::MAX,
    {
        let today = local_today();
        self.write_on(today, text)
    }

    /// Puts back an entry read from persistent storage, raising its day's mark to its
    /// sequence, then evicts. Refuses (returns `None`, changing nothing) a zero sequence or
    /// a key already present.
    pub fn restore(&mut self, key: EntryKey, text: &str) -> (r: Option<Vec<EntryKey>>)
        requires
            old(self).wf(),
        ensures
            final(self).wf(),
            final(self).capacity() == old(self).capacity(),
            final(self).memo_view() == old(self).memo_view(),
            r is Some <==> (key.sequence >= 1 && !has_key(old(self)@, key)),
            r is Some ==> final(self)@ == evict(insert_by_recency(old(self)@, (key, text@)), old(self).capacity()),
            r is Some ==> final(self).marks() == raise(old(self).marks(), key.date, key.sequence as nat),
            r matches Some(ks) ==> ks@ == keys_of(evicted(insert_by_recency(old(self)@, (key, text@)), old(self).capacity())),
            r is None ==> final(self)@ == old(self)@ && final(self).marks() == old(self).marks(),
    {
        if key.sequence == 0 || self.contains_key(&key) {
            return None;
        }
        self.raise_mark(key.date, key.sequence);
        Some(self.insert_and_evict(key, String::from_str(text)))
    }

    pub fn contains_key(&self, key: &EntryKey) -> (r: bool)
        ensures
            r == has_key(self@, *key),
    {
        let mut i: usize = 0;
        while i < self.items.len()
            invariant
                i <= self.items.len(),
                forall|j: int| 0 <= j < i ==> (#[trigger] self@[j]).0 != *key,
            decreases self.items.len() - i,
        {
            if self.items[i].key() == *key {
                assert(self@[i as int].0 == *key);
                return true;
            }
            i = i + 1;
        }
        false
    }

    /// The text stored under (`date`, `sequence`), if any.
    pub fn read(&self, date: &CaptureDate, sequence: u64) -> (r: Option<String>)
        ensures
            r is None <==> !has_key(self@, EntryKey { date: *date, sequence }),
            r matches Some(t) ==> exists|i: int|
                0 <= i < self@.len() && (#[trigger] self@[i]).0 == (EntryKey { date: *date, sequence })
                    && self@[i].1 == t@,
    {
        let key = EntryKey { date: *date, sequence };
        let mut i: usize = 0;
        while i < self.items.len()
            invariant
                i <= self.items.len(),
                key == (EntryKey { date: *date, sequence }),
                forall|j: int| 0 <= j < i ==> (#[trigger] self@[j]).0 != key,
            decreases self.items.len() - i,
        {
            if self.items[i].key() == key {
                assert(self@[i as int] == self.items@[i as int]@);
                assert(self@[i as int].0 == key);
                let t = self.items[i].content.clone();
                assert(self@[i as int].1 == t@);
                return Some(t);
            }
            i = i + 1;
        }
        None
    }

    /// The entries of `date` as (sequence, text), ascending by sequence.
    pub fn read_by_date(&self, date: &CaptureDate) -> (r: Vec<(u64, String)>)
        requires
            self.wf(),
        ensures
            r@.map_values(|p: (u64, String)| (p.0, p.1@)) == entries_on(self@, *date),
            forall|i: int, j: int| 0 <= i < j < r@.len() ==> r@[i].0 < r@[j].0,
    {
        let ghost h = self@;
        let mut out: Vec<(u64, String)> = Vec::new();
        let mut i: usize = self.items.len();
        assert(h.subrange(i as int, h.len() as int) =~= Seq::<(EntryKey, Seq<char>)>::empty());
        while i > 0
            invariant
                i <= self.items.len(),
                h == self@,
                out@.map_values(|p: (u64, String)| (p.0, p.1@)) =~= entries_on(
                    h.subrange(i as int, h.len() as int),
                    *date,
                ),
            decreases i,
        {
            i = i - 1;
            let ghost t = h.subrange(i as int, h.len() as int);
            assert(t.drop_first() =~= h.subrange(i + 1, h.len() as int));
            assert(t[0] == self.items@[i as int]@);
            if self.items[i].date == *date {
                out.push((self.items[i].sequence, self.items[i].content.clone()));
            }
        }
        assert(h.subrange(0, h.len() as int) =~= h);
        proof {
            lemma_entries_on_ascending(h, *date);
            assert forall|i: int, j: int| 0 <= i < j < out@.len() implies out@[i].0 < out@[j].0 by {
                let v = out@.map_values(|p: (u64, String)| (p.0, p.1@));
                assert(v[i].0 == out@[i].0 && v[j].0 == out@[j].0);
            }
        }
        out
    }

    /// The first `count` entries in recency order (all of them when there are fewer), as
    /// (day, sequence, text).
    pub fn read_last(&self, count: usize) -> (r: Vec<(CaptureDate, u64, String)>)
        requires
            self.wf(),
        ensures
            r@.len() == if count < self@.len() { count as int } else { self@.len() as int },
            forall|i: int| 0 <= i < r@.len() ==> {
                &&& (#[trigger] r@[i]).0 == self@[i].0.date
                &&& r@[i].1 == self@[i].0.sequence
                &&& r@[i].2@ == self@[i].1
            },
            forall|i: int, j: int| 0 <= i < j < r@.len() ==> newer(
                EntryKey { date: r@[i].0, sequence: r@[i].1 },
                EntryKey { date: r@[j].0, sequence: r@[j].1 },
            ),
    {
        let n = if count < self.items.len() { count } else { self.items.len() };
        let mut out: Vec<(CaptureDate, u64, String)> = Vec::new();
        let mut i: usize = 0;
        while i < n
            invariant
                n <= self.items.len(),
                i <= n,
                out@.len() == i,
                forall|j: int| 0 <= j < i ==> {
                    &&& (#[trigger] out@[j]).0 == self@[j].0.date
                    &&& out@[j].1 == self@[j].0.sequence
                    &&& out@[j].2@ == self@[j].1
                },
            decreases n - i,
        {
            assert(self@[i as int] == self.items@[i as int]@);
            let e = &self.items[i];
            out.push((e.date, e.sequence, e.content.clone()));
            i = i + 1;
        }
        proof {
            assert forall|i: int, j: int| 0 <= i < j < out@.len() implies newer(
                EntryKey { date: out@[i].0, sequence: out@[i].1 },
                EntryKey { date: out@[j].0, sequence: out@[j].1 },
            ) by {
                assert(newer(self@[i].0, self@[j].0));
            }
        }
        out
    }

    /// The entries in recency order, the first `count` of them when `count` is given.
    pub fn get_clipboard_items(&self, count: Option<usize>) -> (r: Vec<ClipboardItem>)
        requires
            self.wf(),
        ensures
            r@.map_values(|e: ClipboardItem| e@) == self@.take(
                match count {
                    Some(c) => if c < self@.len() { c as int } else { self@.len() as int },
                    None => self@.len() as int,
                },
            ),
            sorted_by_recency(r@.map_values(|e: ClipboardItem| e@)),
    {
        let n = match count {
            Some(c) => if c < self.items.len() { c } else { self.items.len() },
            None => self.items.len(),
        };
        let mut out: Vec<ClipboardItem> = Vec::new();
        let mut i: usize = 0;
        while i < n
            invariant
                n <= self.items.len(),
                i <= n,
                out@.map_values(|e: ClipboardItem| e@) =~= self@.take(i as int),
            decreases n - i,
        {
            assert(self@[i as int] == self.items@[i as int]@);
            out.push(self.items[i].duplicate());
            assert(self@.take(i + 1) =~= self@.take(i as int).push(self@[i as int]));
            i = i + 1;
        }
        proof {
            lemma_prefix_sorted(self@, n as nat);
        }
        out
    }

    /// Adds a memo, as `MemoData::add_memo` does.
    pub fn add_memo(&mut self, memo: &str) -> (r: Option<u64>)
        requires
            old(self).wf(),
        ensures
            final(self).wf(),
            final(self)@ == old(self)@,
            final(self).marks() == old(self).marks(),
            final(self).capacity() == old(self).capacity(),
            r is None <==> max_memo_sequence(old(self).memo_view()) >= u64::MAX,
            r is None ==> final(self).memo_view() == old(self).memo_view(),
            r matches Some(s) ==> {
                &&& s == max_memo_sequence(old(self).memo_view()) + 1
                &&& final(self).memo_view() == seq![(s, memo@)] + old(self).memo_view()
            },
    {
        self.memos.add_memo(memo)
    }

    pub fn get_memo(&self, sequence: u64) -> (r: Option<String>)
        ensures
            r is None <==> !has_memo(self.memo_view(), sequence),
            r matches Some(t) ==> exists|i: int|
                0 <= i < self.memo_view().len() && (#[trigger] self.memo_view()[i]).0 == sequence
                    && self.memo_view()[i].1 == t@,
    {
        let r = self.memos.get_memo(sequence);
        proof {
            if r is Some {
                let t = r->Some_0;
                let i = choose|i: int| 0 <= i < self.memos@.len() && (#[trigger] self.memos@[i]).0 == sequence && self.memos@[i].1 == t@;
                assert(self.memo_view()[i] == self.memos@[i]);
            }
        }
        r
    }

    pub fn get_memo_item(&self, sequence: u64) -> (r: Option<MemoItem>)
        ensures
            r is None <==> !has_memo(self.memo_view(), sequence),
            r matches Some(item) ==> item.sequence == sequence && exists|i: int|
                0 <= i < self.memo_view().len() && #[trigger] self.memo_view()[i] == item@,
    {
        let r = self.memos.get_memo_item(sequence);
        proof {
            if r is Some {
                let item = r->Some_0;
                let i = choose|i: int| 0 <= i < self.memos@.len() && #[trigger] self.memos@[i] == item@;
                assert(self.memo_view()[i] == self.memos@[i]);
            }
        }
        r
    }

    /// Replaces the memo under `sequence`, or creates it when absent.
    pub fn update_memo(&mut self, sequence: u64, memo: &str)
        requires
            old(self).wf(),
        ensures
            final(self).wf(),
            final(self)@ == old(self)@,
            final(self).marks() == old(self).marks(),
            final(self).capacity() == old(self).capacity(),
            final(self).memo_view() == upsert_memo(old(self).memo_view(), sequence, memo@),
    {
        self.memos.update_memo(sequence, memo)
    }

    /// Removes the memo under `sequence`; nothing happens when there is none.
    pub fn delete_memo(&mut self, sequence: u64)
        requires
            old(self).wf(),
        ensures
            final(self).wf(),
            final(self)@ == old(self)@,
            final(self).marks() == old(self).marks(),
            final(self).capacity() == old(self).capacity(),
            final(self).memo_view() == remove_memo(old(self).memo_view(), sequence),
    {
        self.memos.delete_memo(sequence)
    }

    /// The memos with the highest sequence first, the first `count` of them when given.
    pub fn get_memo_items(&self, count: Option<usize>) -> (r: Vec<MemoItem>)
        requires
            self.wf(),
        ensures
            r@.map_values(|e: MemoItem| e@) == self.memo_view().take(
                match count {
                    Some(c) => if c < self.memo_view().len() { c as int } else { self.memo_view().len() as int },
                    None => self.memo_view().len() as int,
                },
            ),
    {
        self.memos.get_memo_items(count)
    }
}

} // verus!
