//! The memo store: free-text notes in one global namespace of sequence numbers.
use vstd::prelude::*;
use vstd::string::StringExecFns;

verus! {

/// A memo and its sequence number.
#[derive(Debug)]
pub struct MemoItem {
    pub sequence: u64,
    pub memo: String,
}

impl View for MemoItem {
    type V = (u64, Seq<char>);

    open spec fn view(&self) -> (u64, Seq<char>) {
        (self.sequence, self.memo@)
    }
}

impl MemoItem {
    pub fn duplicate(&self) -> (r: MemoItem)
        ensures
            r@ == self@,
    {
        MemoItem { sequence: self.sequence, memo: self.memo.clone() }
    }
}

/// The memos as (sequence, text), highest sequence first.
pub type Memos = Seq<(u64, Seq<char>)>;

/// Sequence numbers strictly descend.
pub open spec fn memos_sorted(m: Memos) -> bool {
    forall|i: int, j: int| 0 <= i < j < m.len() ==> #[trigger] m[i].0 > #[trigger] m[j].0
}

/// The largest sequence number in use, or 0 when there is none.
pub open spec fn max_memo_sequence(m: Memos) -> nat
    decreases m.len(),
{
    if m.len() == 0 {
        0
    } else {
        let rest = max_memo_sequence(m.drop_first());
        if m[0].0 > rest {
            m[0].0 as nat
        } else {
            rest
        }
    }
}

/// How many leading memos have a sequence above `s`.
pub open spec fn memo_position(m: Memos, s: u64) -> nat
    decreases m.len(),
{
    if m.len() == 0 {
        0
    } else if m[0].0 > s {
        1 + memo_position(m.drop_first(), s)
    } else {
        0
    }
}

pub open spec fn has_memo(m: Memos, s: u64) -> bool {
    exists|i: int| 0 <= i < m.len() && #[trigger] m[i].0 == s
}

/// The memos after storing `t` under `s`: replaced when `s` is present, inserted otherwise.
pub open spec fn upsert_memo(m: Memos, s: u64, t: Seq<char>) -> Memos {
    let p = memo_position(m, s) as int;
    if p < m.len() && m[p].0 == s {
        m.update(p, (s, t))
    } else {
        m.insert(p, (s, t))
    }
}

/// The memos without the one under `s`.
pub open spec fn remove_memo(m: Memos, s: u64) -> Memos {
    let p = memo_position(m, s) as int;
    if p < m.len() && m[p].0 == s {
        m.remove(p)
    } else {
        m
    }
}

/// `memo_position` splits sorted memos into those above `s` and the rest.
pub proof fn lemma_memo_position(m: Memos, s: u64)
    requires
        memos_sorted(m),
    ensures
        memo_position(m, s) <= m.len(),
        forall|j: int| 0 <= j < memo_position(m, s) ==> #[trigger] m[j].0 > s,
        forall|j: int| memo_position(m, s) <= j < m.len() ==> #[trigger] m[j].0 <= s,
    decreases m.len(),
{
    if m.len() > 0 {
        let t = m.drop_first();
        assert(memos_sorted(t)) by {
            assert forall|i: int, j: int| 0 <= i < j < t.len() implies #[trigger] t[i].0 > #[trigger] t[j].0 by {
                assert(t[i] == m[i + 1] && t[j] == m[j + 1]);
            }
        }
        lemma_memo_position(t, s);
        assert forall|j: int| 0 <= j < memo_position(m, s) implies #[trigger] m[j].0 > s by {
            if j > 0 {
                assert(m[j] == t[j - 1]);
            }
        }
        assert forall|j: int| memo_position(m, s) <= j < m.len() implies #[trigger] m[j].0 <= s by {
            if j > 0 {
                assert(m[j] == t[j - 1]);
                assert(m[0].0 > m[j].0);
            }
        }
    }
}

/// In sorted memos the first sequence is the largest.
pub proof fn lemma_max_memo_first(m: Memos)
    requires
        memos_sorted(m),
    ensures
        m.len() > 0 ==> max_memo_sequence(m) == m[0].0,
        m.len() == 0 ==> max_memo_sequence(m) == 0,
    decreases m.len(),
{
    if m.len() > 0 {
        let t = m.drop_first();
        assert(memos_sorted(t)) by {
            assert forall|i: int, j: int| 0 <= i < j < t.len() implies #[trigger] t[i].0 > #[trigger] t[j].0 by {
                assert(t[i] == m[i + 1] && t[j] == m[j + 1]);
            }
        }
        lemma_max_memo_first(t);
        if t.len() > 0 {
            assert(t[0] == m[1]);
        }
    }
}

/// Storing under a position keeps memos sorted.
pub proof fn lemma_upsert_sorted(m: Memos, s: u64, t: Seq<char>)
    requires
        memos_sorted(m),
    ensures
        memos_sorted(upsert_memo(m, s, t)),
        memos_sorted(remove_memo(m, s)),
{
    lemma_memo_position(m, s);
    let p = memo_position(m, s) as int;
    let r = upsert_memo(m, s, t);
    if p < m.len() && m[p].0 == s {
        assert forall|i: int, j: int| 0 <= i < j < r.len() implies #[trigger] r[i].0 > #[trigger] r[j].0 by {
            assert(r[i].0 == m[i].0 && r[j].0 == m[j].0);
        }
        let q = remove_memo(m, s);
        assert forall|i: int, j: int| 0 <= i < j < q.len() implies #[trigger] q[i].0 > #[trigger] q[j].0 by {
            let a = if i < p { i } else { i + 1 };
            let b = if j < p { j } else { j + 1 };
            assert(q[i] == m[a] && q[j] == m[b]);
        }
    } else {
        assert forall|i: int, j: int| 0 <= i < j < r.len() implies #[trigger] r[i].0 > #[trigger] r[j].0 by {
            if j < p {
                assert(r[i] == m[i] && r[j] == m[j]);
            } else if j == p {
                assert(r[i] == m[i]);
            } else if i < p {
                assert(r[i] == m[i] && r[j] == m[j - 1]);
            } else if i == p {
                assert(r[j] == m[j - 1]);
                assert(m[j - 1].0 != s);
            } else {
                assert(r[i] == m[i - 1] && r[j] == m[j - 1]);
            }
        }
    }
}

/// Memos under a global sequence namespace, kept with the highest sequence first.
pub struct MemoData {
    memos: Vec<MemoItem>,
}

impl View for MemoData {
    type V = Memos;

    closed spec fn view(&self) -> Memos {
        self.memos@.map_values(|e: MemoItem| e@)
    }
}

impl MemoData {
    pub open spec fn wf(&self) -> bool {
        memos_sorted(self@)
    }

    pub fn new() -> (r: MemoData)
        ensures
            r.wf(),
            r@ == Seq::<(u64, Seq<char>)>::empty(),
    {
        let r = MemoData { memos: Vec::new() };
        assert(r@ =~= Seq::<(u64, Seq<char>)>::empty());
        r
    }

    pub fn len(&self) -> (r: usize)
        ensures
            r == self@.len(),
    {
        self.memos.len()
    }

    /// Where sequence `s` belongs.
    fn find_position(&self, s: u64) -> (r: usize)
        requires
            self.wf(),
        ensures
            r == memo_position(self@, s),
    {
        let ghost m = self@;
        proof {
            lemma_memo_position(m, s);
        }
        let mut i: usize = 0;
        while i < self.memos.len() && self.memos[i].sequence > s
            invariant
                i <= self.memos.len(),
                m == self@,
                forall|j: int| 0 <= j < i ==> #[trigger] m[j].0 > s,
            decreases self.memos.len() - i,
        {
            i = i + 1;
        }
        proof {
            if i < memo_position(m, s) {
                assert(m[i as int].0 > s);
            }
            if i > memo_position(m, s) {
                let p = memo_position(m, s) as int;
                assert(m[p].0 > s);
            }
        }
        i
    }

    /// Stores `memo` under 1 + the largest sequence in use (1 when there is none) and
    /// returns that sequence; `None`, changing nothing, when the namespace is used up.
    pub fn add_memo(&mut self, memo: &str) -> (r: Option<u64>)
        requires
            old(self).wf(),
        ensures
            final(self).wf(),
            r is None <==> max_memo_sequence(old(self)@) >= u64::MAX,
            r is None ==> final(self)@ == old(self)@,
            r matches Some(s) ==> {
                &&& s == max_memo_sequence(old(self)@) + 1
                &&& final(self)@ == upsert_memo(old(self)@, s, memo@)
                &&& final(self)@ == seq![(s, memo@)] + old(self)@
            },
    {
        let ghost m = self@;
        proof {
            lemma_max_memo_first(m);
        }
        let next: u64 = if self.memos.len() == 0 {
            1
        } else {
            assert(m[0] == self.memos@[0]@);
            if self.memos[0].sequence == u64::MAX {
                return None;
            }
            self.memos[0].sequence + 1
        };
        proof {
            lemma_memo_position(m, next);
            if m.len() > 0 {
                assert(m[0].0 <= next);
            }
        }
        self.memos.insert(0, MemoItem { sequence: next, memo: String::from_str(memo) });
        assert(self@ =~= seq![(next, memo@)] + m);
        assert(upsert_memo(m, next, memo@) =~= seq![(next, memo@)] + m);
        proof {
            lemma_upsert_sorted(m, next, memo@);
        }
        Some(next)
    }

    /// The memo under `sequence`, if any.
    pub fn get_memo(&self, sequence: u64) -> (r: Option<String>)
        ensures
            r is None <==> !has_memo(self@, sequence),
            r matches Some(t) ==> exists|i: int|
                0 <= i < self@.len() && (#[trigger] self@[i]).0 == sequence && self@[i].1 == t@,
    {
        let mut i: usize = 0;
        while i < self.memos.len()
            invariant
                i <= self.memos.len(),
                forall|j: int| 0 <= j < i ==> (#[trigger] self@[j]).0 != sequence,
            decreases self.memos.len() - i,
        {
            if self.memos[i].sequence == sequence {
                assert(self@[i as int] == self.memos@[i as int]@);
                assert(self@[i as int].0 == sequence);
                let t = self.memos[i].memo.clone();
                return Some(t);
            }
            i = i + 1;
        }
        None
    }

    /// The memo under `sequence` with its sequence, if any.
    pub fn get_memo_item(&self, sequence: u64) -> (r: Option<MemoItem>)
        ensures
            r is None <==> !has_memo(self@, sequence),
            r matches Some(item) ==> item.sequence == sequence && exists|i: int|
                0 <= i < self@.len() && #[trigger] self@[i] == item@,
    {
        let mut i: usize = 0;
        while i < self.memos.len()
            invariant
                i <= self.memos.len(),
                forall|j: int| 0 <= j < i ==> (#[trigger] self@[j]).0 != sequence,
            decreases self.memos.len() - i,
        {
            if self.memos[i].sequence == sequence {
                assert(self@[i as int] == self.memos@[i as int]@);
                assert(self@[i as int].0 == sequence);
                return Some(self.memos[i].duplicate());
            }
            i = i + 1;
        }
        None
    }

    /// Replaces the memo under `sequence` with `memo`, or creates it when absent.
    pub fn update_memo(&mut self, sequence: u64, memo: &str)
        requires
            old(self).wf(),
        ensures
            final(self).wf(),
            final(self)@ == upsert_memo(old(self)@, sequence, memo@),
    {
        let ghost m = self@;
        let p = self.find_position(sequence);
        proof {
            lemma_memo_position(m, sequence);
            lemma_upsert_sorted(m, sequence, memo@);
        }
        let item = MemoItem { sequence, memo: String::from_str(memo) };
        if p < self.memos.len() && self.memos[p].sequence == sequence {
            assert(m[p as int] == self.memos@[p as int]@);
            self.memos.set(p, item);
        } else {
            if p < self.memos.len() {
                assert(m[p as int] == self.memos@[p as int]@);
            }
            self.memos.insert(p, item);
        }
        assert(self@ =~= upsert_memo(m, sequence, memo@));
    }

    /// Removes the memo under `sequence`; nothing happens when there is none.
    pub fn delete_memo(&mut self, sequence: u64)
        requires
            old(self).wf(),
        ensures
            final(self).wf(),
            final(self)@ == remove_memo(old(self)@, sequence),
            !has_memo(final(self)@, sequence),
    {
        let ghost m = self@;
        let p = self.find_position(sequence);
        proof {
            lemma_memo_position(m, sequence);
            lemma_upsert_sorted(m, sequence, Seq::empty());
        }
        if p < self.memos.len() && self.memos[p].sequence == sequence {
            assert(m[p as int] == self.memos@[p as int]@);
            self.memos.remove(p);
        } else {
            if p < self.memos.len() {
                assert(m[p as int] == self.memos@[p as int]@);
            }
        }
        assert(self@ =~= remove_memo(m, sequence));
        assert(!has_memo(self@, sequence)) by {
            if has_memo(self@, sequence) {
                let i = choose|i: int| 0 <= i < self@.len() && #[trigger] self@[i].0 == sequence;
                let pi = p as int;
                if p < m.len() && m[pi].0 == sequence {
                    if i < pi {
                        assert(self@[i] == m[i]);
                    } else {
                        assert(self@[i] == m[i + 1]);
                        assert(m[pi].0 > m[i + 1].0);
                    }
                } else {
                    assert(self@[i] == m[i]);
                }
            }
        }
    }

    /// The memos with the highest sequence first, the first `count` of them when `count`
    /// is given.
    pub fn get_memo_items(&self, count: Option<usize>) -> (r: Vec<MemoItem>)
        requires
            self.wf(),
        ensures
            r@.map_values(|e: MemoItem| e@) == self@.take(
                match count {
                    Some(c) => if c < self@.len() { c as int } else { self@.len() as int },
                    None => self@.len() as int,
                },
            ),
            forall|i: int, j: int| 0 <= i < j < r@.len() ==> r@[i].sequence > r@[j].sequence,
    {
        let n = match count {
            Some(c) => if c < self.memos.len() { c } else { self.memos.len() },
            None => self.memos.len(),
        };
        let mut out: Vec<MemoItem> = Vec::new();
        let mut i: usize = 0;
        while i < n
            invariant
                n <= self.memos.len(),
                i <= n,
                out@.map_values(|e: MemoItem| e@) =~= self@.take(i as int),
            decreases n - i,
        {
            assert(self@[i as int] == self.memos@[i as int]@);
            out.push(self.memos[i].duplicate());
            assert(self@.take(i + 1) =~= self@.take(i as int).push(self@[i as int]));
            i = i + 1;
        }
        proof {
            assert forall|i: int, j: int| 0 <= i < j < out@.len() implies out@[i].sequence > out@[j].sequence by {
                let v = out@.map_values(|e: MemoItem| e@);
                assert(v[i] == out@[i]@ && v[j] == out@[j]@);
                assert(v[i] == self@[i] && v[j] == self@[j]);
                assert(self@[i].0 > self@[j].0);
            }
        }
        out
    }
}

} // verus!
