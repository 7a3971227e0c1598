//! Calendar days and the composite key of a clipboard entry.
use chrono::Datelike;
use vstd::prelude::*;
use vstd::string::StringExecFns;

verus! {

/// A calendar day in local time, as year, month (1 to 12) and day of month (1 to 31).
#[derive(Clone, Copy, Debug, PartialEq, Eq, Structural, Hash)]
pub struct CaptureDate {
    pub year: i32,
    pub month: u32,
    pub day: u32,
}

/// The key of a clipboard entry: its capture day and its sequence number within that day.
#[derive(Clone, Copy, Debug, PartialEq, Eq, Structural, Hash)]
pub struct EntryKey {
    pub date: CaptureDate,
    pub sequence: u64,
}

impl CaptureDate {
    pub open spec fn wf(self) -> bool {
        1 <= self.month <= 12 && 1 <= self.day <= 31
    }

    pub fn new(year: i32, month: u32, day: u32) -> (r: CaptureDate)
        ensures
            r == (CaptureDate { year, month, day }),
    {
        CaptureDate { year, month, day }
    }

    pub fn is_valid(&self) -> (r: bool)
        ensures
            r == self.wf(),
    {
        1 <= self.month && self.month <= 12 && 1 <= self.day && self.day <= 31
    }

    /// Whether `self` is an earlier day than `other`.
    pub fn is_before(&self, other: &CaptureDate) -> (r: bool)
        ensures
            r == date_before(*self, *other),
    {
        self.year < other.year || (self.year == other.year && (self.month < other.month || (
        self.month == other.month && self.day < other.day)))
    }
}

/// Chronological order of days: by year, then month, then day.
pub open spec fn date_before(a: CaptureDate, b: CaptureDate) -> bool {
    a.year < b.year || (a.year == b.year && (a.month < b.month || (a.month == b.month && a.day
        < b.day)))
}

/// Recency order: a later day is newer; on the same day a higher sequence is newer.
pub open spec fn newer(a: EntryKey, b: EntryKey) -> bool {
    date_before(b.date, a.date) || (a.date == b.date && a.sequence > b.sequence)
}

impl EntryKey {
    pub fn new(date: CaptureDate, sequence: u64) -> (r: EntryKey)
        ensures
            r == (EntryKey { date, sequence }),
    {
        EntryKey { date, sequence }
    }

    /// Whether `self` comes before `other` in recency order.
    pub fn is_newer_than(&self, other: &EntryKey) -> (r: bool)
        ensures
            r == newer(*self, *other),
    {
        other.date.is_before(&self.date) || (self.date == other.date && self.sequence
            > other.sequence)
    }
}

/// Two distinct keys are always ordered one way or the other, never both.
pub proof fn lemma_recency_total(a: EntryKey, b: EntryKey)
    ensures
        a != b ==> (newer(a, b) || newer(b, a)),
        !(newer(a, b) && newer(b, a)),
        !newer(a, a),
{
}

/// The character of decimal digit `d`.
pub open spec fn digit_char(d: nat) -> char {
    if d == 0 { '0' } else if d == 1 { '1' } else if d == 2 { '2' } else if d == 3 { '3' } else if d == 4 {
        '4'
    } else if d == 5 { '5' } else if d == 6 { '6' } else if d == 7 { '7' } else if d == 8 { '8' } else { '9' }
}

/// The decimal digits of `n`, without leading zeros.
pub open spec fn decimal(n: nat) -> Seq<char>
    decreases n,
{
    if n < 10 {
        seq![digit_char(n)]
    } else {
        decimal(n / 10).push(digit_char(n % 10))
    }
}

/// The decimal digits of `n`, with zeros in front up to `width` characters.
pub open spec fn zero_padded(n: nat, width: nat) -> Seq<char> {
    let digits = decimal(n);
    if digits.len() < width {
        Seq::new((width - digits.len()) as nat, |i: int| '0') + digits
    } else {
        digits
    }
}

/// A day as text: the year in at least four digits, signed with '-' before year 0 and '+'
/// after year 9999, then month and day in two digits each, joined by '-'.
pub open spec fn date_text(d: CaptureDate) -> Seq<char> {
    let year = if d.year < 0 {
        seq!['-'] + zero_padded((-d.year) as nat, 4)
    } else if d.year > 9999 {
        seq!['+'] + zero_padded(d.year as nat, 4)
    } else {
        zero_padded(d.year as nat, 4)
    };
    year + seq!['-'] + zero_padded(d.month as nat, 2) + seq!['-'] + zero_padded(d.day as nat, 2)
}

fn digit_str(d: u64) -> (r: &'static str)
    requires
        d < 10,
    ensures
        r@ == seq![digit_char(d as nat)],
{
    proof {
        reveal_strlit("0");
        reveal_strlit("1");
        reveal_strlit("2");
        reveal_strlit("3");
        reveal_strlit("4");
        reveal_strlit("5");
        reveal_strlit("6");
        reveal_strlit("7");
        reveal_strlit("8");
        reveal_strlit("9");
    }
    if d == 0 { "0" } else if d == 1 { "1" } else if d == 2 { "2" } else if d == 3 { "3" } else if d == 4 {
        "4"
    } else if d == 5 { "5" } else if d == 6 { "6" } else if d == 7 { "7" } else if d == 8 { "8" } else { "9" }
}

fn push_decimal(s: &mut String, n: u64)
    ensures
        final(s)@ == old(s)@ + decimal(n as nat),
    decreases n,
{
    if n >= 10 {
        push_decimal(s, n / 10);
    }
    s.append(digit_str(n % 10));
    assert(final(s)@ =~= old(s)@ + decimal(n as nat)) by {
        if n >= 10 {
            assert(decimal(n as nat) == decimal((n / 10) as nat).push(digit_char((n % 10) as nat)));
        }
    }
}

fn decimal_len(n: u64) -> (r: usize)
    ensures
        r == decimal(n as nat).len(),
        r <= 20,
    decreases n,
{
    if n < 10 {
        1
    } else {
        let r = decimal_len(n / 10);
        proof {
            lemma_decimal_len_bound(n as nat);
        }
        r + 1
    }
}

pub open spec fn pow10(k: nat) -> nat
    decreases k,
{
    if k == 0 {
        1
    } else {
        10 * pow10((k - 1) as nat)
    }
}

proof fn lemma_decimal_len_below(n: nat, k: nat)
    requires
        k >= 1,
        n < pow10(k),
    ensures
        decimal(n).len() <= k,
    decreases n,
{
    if n >= 10 {
        let p = pow10((k - 1) as nat);
        assert(k >= 2) by {
            if k == 1 {
                assert(pow10(1) == 10) by {
                    reveal_with_fuel(pow10, 2);
                }
            }
        }
        assert(n / 10 < p) by (nonlinear_arith)
            requires
                n < 10 * p,
        ;
        lemma_decimal_len_below(n / 10, (k - 1) as nat);
    }
}

proof fn lemma_decimal_len_bound(n: nat)
    requires
        n <= u64::MAX,
    ensures
        decimal(n).len() <= 20,
{
    assert(pow10(20) == 100000000000000000000) by {
        reveal_with_fuel(pow10, 21);
    }
    lemma_decimal_len_below(n, 20);
}

fn push_padded(s: &mut String, n: u64, width: usize)
    ensures
        final(s)@ == old(s)@ + zero_padded(n as nat, width as nat),
{
    let len = decimal_len(n);
    let ghost start = s@;
    if len < width {
        let mut k: usize = 0;
        while k < width - len
            invariant
                k <= width - len,
                len < width,
                s@ == start + Seq::new(k as nat, |i: int| '0'),
            decreases width - len - k,
        {
            proof {
                reveal_strlit("0");
            }
            s.append("0");
            assert(s@ =~= start + Seq::new((k + 1) as nat, |i: int| '0'));
            k = k + 1;
        }
    }
    push_decimal(s, n);
    assert(s@ =~= start + zero_padded(n as nat, width as nat));
}

impl CaptureDate {
    /// The day as text, such as "2025-08-10".
    pub fn to_text(&self) -> (r: String)
        ensures
            r@ == date_text(*self),
    {
        let mut s = String::new();
        if self.year < 0 {
            proof {
                reveal_strlit("-");
            }
            s.append("-");
            let y: u64 = (-(self.year as i64)) as u64;
            push_padded(&mut s, y, 4);
        } else if self.year > 9999 {
            proof {
                reveal_strlit("+");
            }
            s.append("+");
            push_padded(&mut s, self.year as u64, 4);
        } else {
            push_padded(&mut s, self.year as u64, 4);
        }
        proof {
            reveal_strlit("-");
        }
        s.append("-");
        push_padded(&mut s, self.month as u64, 2);
        s.append("-");
        push_padded(&mut s, self.day as u64, 2);
        assert(s@ =~= date_text(*self));
        s
    }
}

/// Relies on chrono's `Local::now` and `Datelike`: the current local calendar day,
/// whose month lies in 1..=12 and whose day lies in 1..=31.
#[verifier::external_body]
pub(crate) fn local_today() -> (r: CaptureDate)
    ensures
        r.wf(),
{
    let d = chrono::Local::now().date_naive();
    CaptureDate { year: d.year(), month: d.month(), day: d.day() }
}

} // verus!
