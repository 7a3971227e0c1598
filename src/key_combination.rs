//! Detection of a key chord: a fixed set of keys held down together.
use vstd::prelude::*;

verus! {

/// A key of the keyboard, as far as chords and key bindings tell keys apart.
#[derive(Clone, Copy, Debug, PartialEq, Eq, Structural, Hash)]
pub enum Key {
    ControlLeft,
    Alt,
    ShiftLeft,
    /// A letter key, named by its lower-case letter.
    Letter(char),
    /// Any other key, by a code of the input source.
    Other(u32),
}

/// How many flags are set.
pub open spec fn count_set(s: Seq<bool>) -> nat
    decreases s.len(),
{
    if s.len() == 0 {
        0
    } else {
        count_set(s.drop_last()) + if s.last() {
            1nat
        } else {
            0nat
        }
    }
}

pub open spec fn distinct_keys(s: Seq<Key>) -> bool {
    forall|i: int, j: int| 0 <= i < j < s.len() ==> s[i] != s[j]
}

pub proof fn lemma_count_set_bounds(s: Seq<bool>)
    ensures
        count_set(s) <= s.len(),
    decreases s.len(),
{
    if s.len() > 0 {
        lemma_count_set_bounds(s.drop_last());
    }
}

/// Setting flag `i` to `b` changes the count by the difference of the two flags.
pub proof fn lemma_count_set_update(s: Seq<bool>, i: int, b: bool)
    requires
        0 <= i < s.len(),
    ensures
        count_set(s.update(i, b)) + (if s[i] { 1int } else { 0int }) == count_set(s) + (if b { 1int } else { 0int }),
    decreases s.len(),
{
    let u = s.update(i, b);
    if i == s.len() - 1 {
        assert(u.drop_last() =~= s.drop_last());
    } else {
        assert(u.drop_last() =~= s.drop_last().update(i, b));
        lemma_count_set_update(s.drop_last(), i, b);
    }
}

/// `b` is `a` after a press of `k`: a key outside the chord changes nothing; a chord key
/// is marked down, counted unless it was already down, and the chord becomes active when
/// the count reaches the number of its keys.
pub open spec fn press_step(a: KeyCombination, b: KeyCombination, k: Key) -> bool {
    &&& b.chord_keys() == a.chord_keys()
    &&& !a.chord_keys().contains(k) ==> b == a
    &&& a.chord_keys().contains(k) ==> {
        &&& b.pressed().len() == a.pressed().len()
        &&& forall|i: int| 0 <= i < a.chord_keys().len() ==> #[trigger] b.pressed()[i]
            == (a.chord_keys()[i] == k || a.pressed()[i])
        &&& b.count() == if a.is_down(k) { a.count() } else { a.count() + 1 }
        &&& b.active() == (a.active() || b.count() == a.chord_keys().len())
    }
}

/// `b` is `a` after a release of `k`: a key outside the chord changes nothing; a chord key
/// is marked up, the count drops by one when above zero, and the chord is inactive.
pub open spec fn release_step(a: KeyCombination, b: KeyCombination, k: Key) -> bool {
    &&& b.chord_keys() == a.chord_keys()
    &&& !a.chord_keys().contains(k) ==> b == a
    &&& a.chord_keys().contains(k) ==> {
        &&& b.pressed().len() == a.pressed().len()
        &&& forall|i: int| 0 <= i < a.chord_keys().len() ==> #[trigger] b.pressed()[i]
            == (a.chord_keys()[i] != k && a.pressed()[i])
        &&& b.count() == if a.count() > 0 { a.count() - 1 } else { 0 }
        &&& !b.active()
    }
}

/// The state of one chord: which of its keys are down, a count of presses not yet
/// released, and whether the chord is active.
#[derive(Debug)]
pub struct KeyCombination {
    keys: Vec<Key>,
    pressed: Vec<bool>,
    press_count: usize,
    is_active: bool,
}

impl KeyCombination {
    pub closed spec fn chord_keys(&self) -> Seq<Key> {
        self.keys@
    }

    pub closed spec fn pressed(&self) -> Seq<bool> {
        self.pressed@
    }

    pub closed spec fn count(&self) -> nat {
        self.press_count as nat
    }

    pub closed spec fn active(&self) -> bool {
        self.is_active
    }

    pub open spec fn wf(&self) -> bool {
        &&& self.chord_keys().len() >= 1
        &&& distinct_keys(self.chord_keys())
        &&& self.pressed().len() == self.chord_keys().len()
        &&& self.count() <= count_set(self.pressed())
        &&& self.active() == (self.count() == self.chord_keys().len())
    }

    /// Whether `k` is one of the chord's keys and is down.
    pub open spec fn is_down(&self, k: Key) -> bool {
        exists|i: int| 0 <= i < self.chord_keys().len() && self.chord_keys()[i] == k && #[trigger] self.pressed()[i]
    }

    /// A chord of the keys in `keys`, none of them down; `None` when `keys` is empty or
    /// names a key twice.
    pub fn from_keys(keys: Vec<Key>) -> (r: Option<KeyCombination>)
        ensures
            r is Some <==> keys@.len() >= 1 && distinct_keys(keys@),
            r matches Some(c) ==> {
                &&& c.wf()
                &&& c.chord_keys() == keys@
                &&& forall|i: int| 0 <= i < keys@.len() ==> !(#[trigger] c.pressed()[i])
                &&& c.count() == 0
                &&& !c.active()
            },
    {
        if keys.len() == 0 {
            return None;
        }
        let mut i: usize = 0;
        while i < keys.len()
            invariant
                i <= keys.len(),
                forall|a: int, b: int| 0 <= a < b < keys@.len() && a < i ==> keys@[a] != keys@[b],
            decreases keys.len() - i,
        {
            let mut j: usize = i + 1;
            while j < keys.len()
                invariant
                    i < j <= keys.len(),
                    forall|a: int, b: int| 0 <= a < b < keys@.len() && a < i ==> keys@[a] != keys@[b],
                    forall|b: int| i < b < j ==> keys@[i as int] != keys@[b],
                decreases keys.len() - j,
            {
                if keys[i] == keys[j] {
                    return None;
                }
                j = j + 1;
            }
            i = i + 1;
        }
        let mut pressed: Vec<bool> = Vec::new();
        let mut k: usize = 0;
        while k < keys.len()
            invariant
                k <= keys.len(),
                pressed@.len() == k,
                forall|a: int| 0 <= a < k ==> !(#[trigger] pressed@[a]),
            decreases keys.len() - k,
        {
            pressed.push(false);
            k = k + 1;
        }
        Some(KeyCombination { keys, pressed, press_count: 0, is_active: false })
    }

    /// The chord of `first` and `second` (of `first` alone when the two are equal).
    pub fn new(first: Key, second: Key) -> (r: KeyCombination)
        ensures
            r.wf(),
            r.chord_keys() == if first == second { seq![first] } else { seq![first, second] },
            forall|i: int| 0 <= i < r.pressed().len() ==> !(#[trigger] r.pressed()[i]),
            r.count() == 0,
            !r.active(),
    {
        let mut keys: Vec<Key> = Vec::new();
        let mut pressed: Vec<bool> = Vec::new();
        keys.push(first);
        pressed.push(false);
        if first != second {
            keys.push(second);
            pressed.push(false);
        }
        let r = KeyCombination { keys, pressed, press_count: 0, is_active: false };
        assert(r.chord_keys() =~= if first == second { seq![first] } else { seq![first, second] });
        r
    }

    pub fn is_active(&self) -> (r: bool)
        ensures
            r == self.active(),
    {
        self.is_active
    }

    /// The count of presses not yet released.
    pub fn press_count(&self) -> (r: usize)
        ensures
            r == self.count(),
    {
        self.press_count
    }

    pub fn contains(&self, key: Key) -> (r: bool)
        ensures
            r == self.chord_keys().contains(key),
    {
        self.index_of(key).is_some()
    }

    fn index_of(&self, key: Key) -> (r: Option<usize>)
        ensures
            r is None ==> !self.chord_keys().contains(key),
            r matches Some(i) ==> i < self.chord_keys().len() && self.chord_keys()[i as int] == key,
    {
        let mut i: usize = 0;
        while i < self.keys.len()
            invariant
                i <= self.keys.len(),
                forall|j: int| 0 <= j < i ==> self.keys@[j] != key,
            decreases self.keys.len() - i,
        {
            if self.keys[i] == key {
                return Some(i);
            }
            i = i + 1;
        }
        None
    }

    /// Marks `key` down. A key that is already down is not counted again. The chord becomes
    /// active when the count reaches the number of its keys. Keys outside the chord are
    /// ignored.
    pub fn press_key(&mut self, key: Key)
        requires
            old(self).wf(),
        ensures
            final(self).wf(),
            press_step(*old(self), *final(self), key),
    {
        match self.index_of(key) {
            None => {},
            Some(i) => {
                let ghost before = self.pressed@;
                proof {
                    lemma_count_set_bounds(before);
                    lemma_count_set_bounds(before.update(i as int, true));
                    lemma_count_set_update(before, i as int, true);
                    if self.is_down(key) {
                        let j = choose|j: int| 0 <= j < self.chord_keys().len() && self.chord_keys()[j] == key && #[trigger] self.pressed()[j];
                        assert(j == i);
                    }
                }
                let n = self.pressed.len();
                if !self.pressed[i] {
                    assert(self.press_count < n);
                    self.press_count = self.press_count + 1;
                }
                self.pressed.set(i, true);
                if self.press_count == self.keys.len() {
                    self.is_active = true;
                }
                assert forall|j: int| 0 <= j < self.keys@.len() implies #[trigger] self.pressed@[j]
                    == (self.keys@[j] == key || before[j]) by {
                    if j != i {
                        assert(self.keys@[j] != self.keys@[i as int]);
                    }
                }
            },
        }
    }

    /// Marks `key` up and lowers the count when it is above zero, whether or not the key was
    /// down; the chord is then inactive. Keys outside the chord are ignored.
    pub fn release_key(&mut self, key: Key)
        requires
            old(self).wf(),
        ensures
            final(self).wf(),
            release_step(*old(self), *final(self), key),
    {
        match self.index_of(key) {
            None => {},
            Some(i) => {
                let ghost before = self.pressed@;
                proof {
                    lemma_count_set_bounds(before);
                    lemma_count_set_update(before, i as int, false);
                }
                self.pressed.set(i, false);
                if self.press_count > 0 {
                    self.press_count = self.press_count - 1;
                }
                if self.press_count < self.keys.len() {
                    self.is_active = false;
                }
                assert forall|j: int| 0 <= j < self.keys@.len() implies #[trigger] self.pressed@[j]
                    == (self.keys@[j] != key && before[j]) by {
                    if j != i {
                        assert(self.keys@[j] != self.keys@[i as int]);
                    }
                }
            },
        }
    }
}

/// For a two-key chord with no key down: pressing both keys makes it active, and then
/// releasing either one makes it inactive.
pub proof fn lemma_two_key_chord(
    c0: KeyCombination,
    c1: KeyCombination,
    c2: KeyCombination,
    c3: KeyCombination,
    a: Key,
    b: Key,
    x: Key,
)
    requires
        c0.wf(),
        c0.chord_keys() == seq![a, b],
        a != b,
        c0.count() == 0,
        forall|i: int| 0 <= i < 2 ==> !(#[trigger] c0.pressed()[i]),
        press_step(c0, c1, a),
        press_step(c1, c2, b),
        x == a || x == b,
        release_step(c2, c3, x),
    ensures
        c2.active(),
        !c3.active(),
{
    assert(c0.chord_keys().contains(a) && c0.chord_keys()[0] == a);
    assert(c1.chord_keys().contains(b) && c1.chord_keys()[1] == b);
    assert(!c0.is_down(a));
    assert(!c1.pressed()[1]);
    assert(!c1.is_down(b));
    assert(c2.chord_keys()[0] == a || c2.chord_keys()[1] == b);
    assert(c2.chord_keys().contains(x));
}

/// Pressing a chord key twice in a row counts it once.
pub proof fn lemma_repeated_press(c0: KeyCombination, c1: KeyCombination, c2: KeyCombination, a: Key)
    requires
        c0.wf(),
        c0.chord_keys().contains(a),
        press_step(c0, c1, a),
        press_step(c1, c2, a),
    ensures
        c2.count() == c1.count(),
        c1.count() == if c0.is_down(a) { c0.count() } else { c0.count() + 1 },
{
    let i = choose|i: int| 0 <= i < c0.chord_keys().len() && c0.chord_keys()[i] == a;
    assert(c1.pressed()[i]);
    assert(c1.is_down(a));
}

} // verus!
