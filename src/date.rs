use crate::digits::{int_text, nat_digits, push_char, push_digits, push_int, push_padded, zero_padded};
use vstd::prelude::*;
use vstd::string::StringSliceAdditionalSpecFns;
use vstd::utf8::{encode_utf8, is_ascii_chars, is_ascii_chars_encode_utf8};

verus! {

/// Number of days in a month of the game calendar, where February always has 28.
pub open spec fn days_in_month(m: int) -> int {
    if m == 2 {
        28
    } else if m == 4 || m == 6 || m == 9 || m == 11 {
        30
    } else {
        31
    }
}

/// Days of the year that come before the first day of month `m`.
pub open spec fn days_before_month(m: int) -> int {
    if m <= 1 {
        0
    } else if m == 2 {
        31
    } else if m == 3 {
        59
    } else if m == 4 {
        90
    } else if m == 5 {
        120
    } else if m == 6 {
        151
    } else if m == 7 {
        181
    } else if m == 8 {
        212
    } else if m == 9 {
        243
    } else if m == 10 {
        273
    } else if m == 11 {
        304
    } else if m == 12 {
        334
    } else {
        365
    }
}

/// The bounds that every date holds.
pub open spec fn date_bounds(year: int, month: int, day: int, hour: int) -> bool {
    &&& year > -100
    &&& 1 <= month <= 12
    &&& 1 <= day <= days_in_month(month)
    &&& 1 <= hour <= 24
}

/// The bounds that the constructor asks for: those of every date, and a year
/// other than zero.
pub open spec fn valid_ymdh(year: int, month: int, day: int, hour: int) -> bool {
    &&& year != 0
    &&& year > -100
    &&& 1 <= month <= 12
    &&& 1 <= day <= days_in_month(month)
    &&& 1 <= hour <= 24
}

/// The month of a zero based day of the year.
pub open spec fn month_of_day(doy: int) -> int {
    if doy < 31 {
        1
    } else if doy < 59 {
        2
    } else if doy < 90 {
        3
    } else if doy < 120 {
        4
    } else if doy < 151 {
        5
    } else if doy < 181 {
        6
    } else if doy < 212 {
        7
    } else if doy < 243 {
        8
    } else if doy < 273 {
        9
    } else if doy < 304 {
        10
    } else if doy < 334 {
        11
    } else {
        12
    }
}

/// Month and day of month for a zero based day of the year.
pub open spec fn month_day_of(doy: int) -> (int, int) {
    let m = month_of_day(doy);
    (m, doy - days_before_month(m) + 1)
}

/// The linear day count of a date: each year has 365 days, and for negative
/// years the month and day are subtracted so that the order is kept.
pub open spec fn day_number(year: int, month: int, day: int) -> int {
    let year_day = year * 365;
    let month_days = days_before_month(month) - 1;
    if year_day < 0 {
        year_day - month_days - day
    } else {
        year_day + month_days + day
    }
}

/// A calendar instant of the game: every year has 365 days. Dates order by
/// year, then month, day and hour.
#[derive(Debug, Clone, Copy, PartialEq, Eq, PartialOrd, Ord)]
pub struct Date {
    year: i16,
    month: u8,
    day: u8,
    hour: u8,
}

impl View for Date {
    type V = (i16, u8, u8, u8);

    closed spec fn view(&self) -> (i16, u8, u8, u8) {
        (self.year, self.month, self.day, self.hour)
    }
}

/// The date with these components, whether or not they are valid.
pub closed spec fn date_of(year: i16, month: u8, day: u8, hour: u8) -> Date {
    Date { year, month, day, hour }
}

/// A date built from components has those components.
pub broadcast proof fn lemma_date_of_view(year: i16, month: u8, day: u8, hour: u8)
    ensures
        #[trigger] date_of(year, month, day, hour)@ == (year, month, day, hour),
{
}

/// Dates with the same components are the same date.
pub broadcast proof fn lemma_view_determines(a: Date, b: Date)
    ensures
        #[trigger] a@ == #[trigger] b@ ==> a == b,
{
}

/// What a date decoded from a binary integer is: `s` counts hours, starting
/// at the first hour of year -5000.
pub open spec fn binary_parts(s: int) -> (int, int, int, int) {
    let hour = s % 24 + 1;
    let doy = (s / 24) % 365;
    let year = s / 24 / 365 - 5000;
    let (month, day) = month_day_of(doy);
    (year, month, day, hour)
}

/// The date that the binary integer `s` stands for, if any.
pub open spec fn date_from_binary(s: int) -> Option<Date> {
    let (year, month, day, hour) = binary_parts(s);
    if s >= 0 && i16::MIN <= year <= i16::MAX && valid_ymdh(year, month, day, hour) {
        Some(date_of(year as i16, month as u8, day as u8, hour as u8))
    } else {
        None
    }
}

/// The game format of a date: `Y.M.D.H` without padding.
pub open spec fn game_text(d: Date) -> Seq<char> {
    int_text(d@.0 as int) + seq!['.'] + nat_digits(d@.1 as nat) + seq!['.'] + nat_digits(
        d@.2 as nat,
    ) + seq!['.'] + nat_digits(d@.3 as nat)
}

/// The ISO 8601 like format of a date: `YYYY-MM-DDTHH`.
pub open spec fn iso_text(d: Date) -> Seq<char> {
    let year = d@.0 as int;
    let year_text = if year < 0 {
        seq!['-'] + zero_padded(nat_digits((-year) as nat), 3)
    } else {
        zero_padded(nat_digits(year as nat), 4)
    };
    year_text + seq!['-'] + zero_padded(nat_digits(d@.1 as nat), 2) + seq!['-'] + zero_padded(
        nat_digits(d@.2 as nat),
        2,
    ) + seq!['T'] + zero_padded(nat_digits(d@.3 as nat), 2)
}

/// The year that the day number `n` falls in: the quotient truncated
/// towards zero.
pub open spec fn year_after(n: int) -> int {
    if n < 0 {
        -((-n) / 365)
    } else {
        n / 365
    }
}

/// Whether a byte is an ASCII digit.
pub open spec fn is_digit(c: u8) -> bool {
    48 <= c <= 57
}

/// Whether every byte is an ASCII digit.
pub open spec fn all_digits(s: Seq<u8>) -> bool {
    forall|i: int| 0 <= i < s.len() ==> is_digit(#[trigger] s[i])
}

/// The number that a run of decimal digits writes.
pub open spec fn digits_value(s: Seq<u8>) -> nat
    decreases s.len(),
{
    if s.len() == 0 {
        0
    } else {
        digits_value(s.drop_last()) * 10 + (s.last() - 48) as nat
    }
}

/// A scalar read as an unsigned integer: an optional `+`, then digits.
pub open spec fn unsigned_value(s: Seq<u8>) -> Option<int> {
    if s.len() == 0 {
        None
    } else if s[0] == 43u8 && all_digits(s.drop_first()) {
        Some(digits_value(s.drop_first()) as int)
    } else if all_digits(s) {
        Some(digits_value(s) as int)
    } else {
        None
    }
}

/// A scalar read as a signed integer: an optional `+` or `-`, then digits.
pub open spec fn signed_value(s: Seq<u8>) -> Option<int> {
    if s.len() > 0 && s[0] == 45u8 && all_digits(s.drop_first()) {
        Some(-(digits_value(s.drop_first()) as int))
    } else {
        unsigned_value(s)
    }
}

/// The pieces of `s` between its dots.
pub open spec fn split_dots(s: Seq<u8>) -> Seq<Seq<u8>>
    decreases s.len(),
{
    if s.len() == 0 {
        seq![Seq::empty()]
    } else {
        let parts = split_dots(s.drop_last());
        if s.last() == 46u8 {
            parts.push(Seq::empty())
        } else {
            parts.update(parts.len() - 1, parts.last().push(s.last()))
        }
    }
}

/// The date that a text in the game format `Y.M.D.H` stands for, if any. A text
/// that is empty or starts above the digit `9` is no date.
pub open spec fn date_from_text(s: Seq<u8>) -> Option<Date> {
    let parts = split_dots(s);
    if s.len() == 0 || s[0] > 57u8 || parts.len() != 4 {
        None
    } else {
        match (
            signed_value(parts[0]),
            unsigned_value(parts[1]),
            unsigned_value(parts[2]),
            unsigned_value(parts[3]),
        ) {
            (Some(y), Some(m), Some(d), Some(h)) => {
                if i16::MIN <= y <= i16::MAX && m <= u8::MAX && d <= u8::MAX && h <= u8::MAX
                    && valid_ymdh(y, m, d, h) {
                    Some(date_of(y as i16, m as u8, d as u8, h as u8))
                } else {
                    None
                }
            },
            _ => None,
        }
    }
}

/// Past this bound a component cannot be part of a date.
pub const DIGITS_CAP: u32 = 100000;

/// The pieces of `s` cut at `e1`, `e2` and `e3` (the dots found so far, `n` of
/// them), up to position `pos`.
spec fn parts_so_far(s: Seq<u8>, n: int, e1: int, e2: int, e3: int, pos: int) -> Seq<Seq<u8>> {
    if n == 0 {
        seq![s.subrange(0, pos)]
    } else if n == 1 {
        seq![s.subrange(0, e1), s.subrange(e1 + 1, pos)]
    } else if n == 2 {
        seq![s.subrange(0, e1), s.subrange(e1 + 1, e2), s.subrange(e2 + 1, pos)]
    } else {
        seq![
            s.subrange(0, e1),
            s.subrange(e1 + 1, e2),
            s.subrange(e2 + 1, e3),
            s.subrange(e3 + 1, pos),
        ]
    }
}

/// Cutting a longer prefix gives at least as many pieces.
proof fn lemma_split_len_grows(s: Seq<u8>, k: int)
    requires
        0 <= k <= s.len(),
    ensures
        split_dots(s.take(k)).len() <= split_dots(s).len(),
    decreases s.len() - k,
{
    if k == s.len() {
        assert(s.take(k) =~= s);
    } else {
        lemma_split_len_grows(s, k + 1);
        assert(s.take(k + 1).drop_last() =~= s.take(k));
    }
}

/// Reads the digits of `b[lo..hi]`, capped just above `DIGITS_CAP`.
fn read_digits(b: &[u8], lo: usize, hi: usize) -> (r: Option<u32>)
    requires
        lo <= hi <= b@.len(),
    ensures
        r is Some <==> all_digits(b@.subrange(lo as int, hi as int)),
        r matches Some(v) ==> v <= DIGITS_CAP + 1,
        r matches Some(v) ==> (v <= DIGITS_CAP ==> v == digits_value(
            b@.subrange(lo as int, hi as int),
        )),
        r matches Some(v) ==> (v > DIGITS_CAP ==> digits_value(b@.subrange(lo as int, hi as int))
            > DIGITS_CAP),
{
    let mut acc: u32 = 0;
    let mut i = lo;
    while i < hi
        invariant
            lo <= i <= hi <= b@.len(),
            all_digits(b@.subrange(lo as int, i as int)),
            acc <= DIGITS_CAP + 1,
            acc <= DIGITS_CAP ==> acc == digits_value(b@.subrange(lo as int, i as int)),
            acc > DIGITS_CAP ==> digits_value(b@.subrange(lo as int, i as int)) > DIGITS_CAP,
        decreases hi - i,
    {
        let c = b[i];
        if c < 48 || c > 57 {
            assert(b@.subrange(lo as int, hi as int)[i - lo] == c);
            return None;
        }
        let ghost prev = b@.subrange(lo as int, i as int);
        let ghost next = b@.subrange(lo as int, i + 1);
        assert(next.drop_last() =~= prev);
        assert(next.last() == c);
        assert(digits_value(next) == digits_value(prev) * 10 + (c - 48) as nat);
        if acc <= DIGITS_CAP {
            acc = acc * 10 + (c - 48) as u32;
            if acc > DIGITS_CAP {
                acc = DIGITS_CAP + 1;
            }
        }
        i = i + 1;
        assert(all_digits(next)) by {
            assert forall|k: int| 0 <= k < next.len() implies is_digit(#[trigger] next[k]) by {
                if k < prev.len() {
                    assert(next[k] == prev[k]);
                }
            }
        }
    }
    Some(acc)
}

/// Reads `b[lo..hi]` as an unsigned scalar, capped just above `DIGITS_CAP`.
fn read_unsigned(b: &[u8], lo: usize, hi: usize) -> (r: Option<u32>)
    requires
        lo <= hi <= b@.len(),
    ensures
        r is Some <==> unsigned_value(b@.subrange(lo as int, hi as int)) is Some,
        r matches Some(v) ==> v <= DIGITS_CAP + 1,
        r matches Some(v) ==> (v <= DIGITS_CAP ==> unsigned_value(
            b@.subrange(lo as int, hi as int),
        ) == Some(v as int)),
        r matches Some(v) ==> (v > DIGITS_CAP ==> unsigned_value(
            b@.subrange(lo as int, hi as int),
        ).unwrap() > DIGITS_CAP),
{
    let ghost s = b@.subrange(lo as int, hi as int);
    if lo == hi {
        return None;
    }
    if b[lo] == 43 {
        assert(s.drop_first() =~= b@.subrange(lo + 1, hi as int));
        assert(!all_digits(s)) by {
            assert(s[0] == 43u8);
        }
        read_digits(b, lo + 1, hi)
    } else {
        read_digits(b, lo, hi)
    }
}

/// Reads `b[lo..hi]` as a signed scalar; the magnitude is capped just above
/// `DIGITS_CAP`.
fn read_signed(b: &[u8], lo: usize, hi: usize) -> (r: Option<i32>)
    requires
        lo <= hi <= b@.len(),
    ensures
        r is Some <==> signed_value(b@.subrange(lo as int, hi as int)) is Some,
        r matches Some(v) ==> -(DIGITS_CAP as int) - 1 <= v <= DIGITS_CAP + 1,
        r matches Some(v) ==> (-(DIGITS_CAP as int) <= v <= DIGITS_CAP ==> signed_value(
            b@.subrange(lo as int, hi as int),
        ) == Some(v as int)),
        r matches Some(v) ==> (v > DIGITS_CAP ==> signed_value(
            b@.subrange(lo as int, hi as int),
        ).unwrap() > DIGITS_CAP),
        r matches Some(v) ==> (v < -(DIGITS_CAP as int) ==> signed_value(
            b@.subrange(lo as int, hi as int),
        ).unwrap() < -DIGITS_CAP),
{
    let ghost s = b@.subrange(lo as int, hi as int);
    if lo < hi && b[lo] == 45 {
        assert(s.drop_first() =~= b@.subrange(lo + 1, hi as int));
        assert(s[0] == 45u8);
        assert(!all_digits(s));
        match read_digits(b, lo + 1, hi) {
            Some(v) => Some(-(v as i32)),
            None => None,
        }
    } else {
        match read_unsigned(b, lo, hi) {
            Some(v) => Some(v as i32),
            None => None,
        }
    }
}

/// The positions of the three dots of `data`, when it has exactly three.
fn find_dots(data: &[u8]) -> (r: Option<(usize, usize, usize)>)
    ensures
        r is Some <==> split_dots(data@).len() == 4,
        r matches Some((e1, e2, e3)) ==> e1 < e2 < e3 < data@.len() && split_dots(data@) == seq![
            data@.subrange(0, e1 as int),
            data@.subrange(e1 + 1, e2 as int),
            data@.subrange(e2 + 1, e3 as int),
            data@.subrange(e3 + 1, data@.len() as int),
        ],
{
    let ghost b = data@;
    let mut state: usize = 0;
    let mut e1: usize = 0;
    let mut e2: usize = 0;
    let mut e3: usize = 0;
    let mut start: usize = 0;
    let mut pos: usize = 0;
    assert(b.take(0) =~= Seq::<u8>::empty());
    assert(b.subrange(0, 0) =~= Seq::<u8>::empty());
    while pos < data.len()
        invariant
            b == data@,
            pos <= b.len(),
            state <= 3,
            state == 0 ==> start == 0,
            state >= 1 ==> e1 < pos,
            state >= 2 ==> e1 < e2 < pos,
            state >= 3 ==> e2 < e3 < pos,
            state == 1 ==> start == e1 + 1,
            state == 2 ==> start == e2 + 1,
            state == 3 ==> start == e3 + 1,
            start <= pos,
            split_dots(b.take(pos as int)) =~= parts_so_far(
                b,
                state as int,
                e1 as int,
                e2 as int,
                e3 as int,
                pos as int,
            ),
        decreases b.len() - pos,
    {
        let ghost before = b.take(pos as int);
        let ghost after = b.take(pos + 1);
        assert(after.drop_last() =~= before);
        assert(after.last() == b[pos as int]);
        if data[pos] == 46 {
            if state == 0 {
                e1 = pos;
            } else if state == 1 {
                e2 = pos;
            } else if state == 2 {
                e3 = pos;
            } else {
                proof {
                    assert(split_dots(after).len() == 5);
                    lemma_split_len_grows(b, pos + 1);
                }
                return None;
            }
            state = state + 1;
            start = pos + 1;
            assert(b.subrange(pos + 1, pos + 1) =~= Seq::<u8>::empty());
        } else {
            assert(b.subrange(start as int, pos + 1) =~= b.subrange(start as int, pos as int).push(
                b[pos as int],
            ));
        }
        pos = pos + 1;
        assert(split_dots(b.take(pos as int)) =~= parts_so_far(
            b,
            state as int,
            e1 as int,
            e2 as int,
            e3 as int,
            pos as int,
        ));
    }
    assert(b.take(pos as int) =~= b);
    if state != 3 {
        return None;
    }
    Some((e1, e2, e3))
}

/// A component read from text, as a year.
fn year_component(v: Option<i32>) -> (r: Option<i16>)
    ensures
        r matches Some(y) ==> v == Some(y as i32),
        v matches Some(x) ==> (i16::MIN <= x <= i16::MAX <==> r is Some),
{
    match v {
        Some(x) => if i16::MIN as i32 <= x && x <= i16::MAX as i32 {
            Some(x as i16)
        } else {
            None
        },
        None => None,
    }
}

/// A component read from text, as a month, day or hour.
fn small_component(v: Option<u32>) -> (r: Option<u8>)
    ensures
        r matches Some(y) ==> v == Some(y as u32),
        v matches Some(x) ==> (x <= u8::MAX <==> r is Some),
{
    match v {
        Some(x) => if x <= u8::MAX as u32 {
            Some(x as u8)
        } else {
            None
        },
        None => None,
    }
}

/// The bytes of a text whose characters are all ASCII.
pub open spec fn ascii_bytes(c: Seq<char>) -> Seq<u8> {
    Seq::new(c.len(), |i: int| c[i] as u8)
}

proof fn lemma_ascii_bytes_concat(a: Seq<char>, b: Seq<char>)
    ensures
        ascii_bytes(a + b) =~= ascii_bytes(a) + ascii_bytes(b),
{
}

/// The digits of a number are ASCII digits that read back as the number.
proof fn lemma_nat_digits_read(n: nat)
    ensures
        nat_digits(n).len() >= 1,
        is_ascii_chars(nat_digits(n)),
        all_digits(ascii_bytes(nat_digits(n))),
        digits_value(ascii_bytes(nat_digits(n))) == n,
    decreases n,
{
    let b = ascii_bytes(nat_digits(n));
    if n < 10 {
        assert(b.drop_last() =~= Seq::<u8>::empty());
        assert(b.last() == (48 + n) as u8);
        assert(digits_value(b) == digits_value(b.drop_last()) * 10 + (b.last() - 48) as nat);
    } else {
        lemma_nat_digits_read(n / 10);
        let p = ascii_bytes(nat_digits(n / 10));
        assert(b.drop_last() =~= p);
        assert(b.last() == (48 + n % 10) as u8);
        assert(digits_value(b) == digits_value(p) * 10 + (b.last() - 48) as nat);
        assert(n == (n / 10) * 10 + n % 10);
        assert forall|i: int| 0 <= i < b.len() implies is_digit(#[trigger] b[i]) by {
            if i < p.len() {
                assert(b[i] == p[i]);
            }
        }
    }
}

/// Appending a piece without dots extends the last part.
proof fn lemma_split_append(p: Seq<u8>, q: Seq<u8>)
    requires
        forall|i: int| 0 <= i < q.len() ==> #[trigger] q[i] != 46u8,
    ensures
        split_dots(p + q) == split_dots(p).update(
            split_dots(p).len() - 1,
            split_dots(p).last() + q,
        ),
        split_dots(p + q).len() == split_dots(p).len(),
    decreases q.len(),
{
    lemma_split_nonempty(p);
    if q.len() == 0 {
        assert(p + q =~= p);
        assert(split_dots(p).last() + q =~= split_dots(p).last());
        assert(split_dots(p).update(split_dots(p).len() - 1, split_dots(p).last())
            =~= split_dots(p));
    } else {
        let q0 = q.drop_last();
        lemma_split_append(p, q0);
        assert((p + q).drop_last() =~= p + q0);
        assert((p + q).last() == q.last());
        assert((split_dots(p).last() + q0).push(q.last()) =~= split_dots(p).last() + q);
        assert(split_dots(p + q) =~= split_dots(p).update(
            split_dots(p).len() - 1,
            split_dots(p).last() + q,
        ));
    }
}

proof fn lemma_split_nonempty(p: Seq<u8>)
    ensures
        split_dots(p).len() >= 1,
    decreases p.len(),
{
    if p.len() > 0 {
        lemma_split_nonempty(p.drop_last());
    }
}

/// Appending a dot starts a new, empty part.
proof fn lemma_split_dot(p: Seq<u8>)
    ensures
        split_dots(p.push(46u8)) == split_dots(p).push(Seq::<u8>::empty()),
{
    assert(p.push(46u8).drop_last() =~= p);
}

/// Digit bytes hold no dot.
proof fn lemma_digits_no_dot(s: Seq<u8>)
    requires
        all_digits(s),
    ensures
        forall|i: int| 0 <= i < s.len() ==> #[trigger] s[i] != 46u8,
{
    assert forall|i: int| 0 <= i < s.len() implies #[trigger] s[i] != 46u8 by {
        assert(is_digit(s[i]));
    }
}

/// The bytes of the year's text read back as the year.
proof fn lemma_int_text_read(y: int)
    requires
        y != 0,
    ensures
        ascii_bytes(int_text(y)).len() >= 1,
        is_ascii_chars(int_text(y)),
        signed_value(ascii_bytes(int_text(y))) == Some(y),
        ascii_bytes(int_text(y))[0] <= 57u8,
        forall|i: int|
            0 <= i < ascii_bytes(int_text(y)).len() ==> #[trigger] ascii_bytes(int_text(y))[i]
                != 46u8,
{
    if y < 0 {
        let m = (-y) as nat;
        lemma_nat_digits_read(m);
        let db = ascii_bytes(nat_digits(m));
        lemma_ascii_bytes_concat(seq!['-'], nat_digits(m));
        let b = ascii_bytes(int_text(y));
        assert(b =~= seq![45u8] + db);
        assert(b.drop_first() =~= db);
        lemma_digits_no_dot(db);
        assert forall|i: int| 0 <= i < b.len() implies #[trigger] b[i] != 46u8 by {
            if i > 0 {
                assert(b[i] == db[i - 1]);
            }
        }
    } else {
        lemma_nat_digits_read(y as nat);
        let b = ascii_bytes(int_text(y));
        lemma_digits_no_dot(b);
        assert(is_digit(b[0]));
    }
}

/// Reading a date back from its game format gives the same date.
pub proof fn lemma_game_fmt_round_trip(d: Date)
    requires
        valid_ymdh(d@.0 as int, d@.1 as int, d@.2 as int, d@.3 as int),
    ensures
        date_from_text(encode_utf8(game_text(d))) == Some(d),
{
    let y = int_text(d@.0 as int);
    let m = nat_digits(d@.1 as nat);
    let dd = nat_digits(d@.2 as nat);
    let h = nat_digits(d@.3 as nat);
    let dot = seq!['.'];
    lemma_int_text_read(d@.0 as int);
    lemma_nat_digits_read(d@.1 as nat);
    lemma_nat_digits_read(d@.2 as nat);
    lemma_nat_digits_read(d@.3 as nat);
    let t = game_text(d);
    assert(is_ascii_chars(t)) by {
        assert forall|i: int| 0 <= i < t.len() implies '\0' <= #[trigger] t[i] <= '\u{7f}' by {
            let a = y.len();
            let b = a + 1 + m.len();
            let c = b + 1 + dd.len();
            if i < a {
                assert(t[i] == y[i]);
            } else if i == a || i == b || i == c {
            } else if i < b {
                assert(t[i] == m[i - a - 1]);
            } else if i < c {
                assert(t[i] == dd[i - b - 1]);
            } else {
                assert(t[i] == h[i - c - 1]);
            }
        }
    }
    is_ascii_chars_encode_utf8(t);
    assert(encode_utf8(t) =~= ascii_bytes(t));
    let yb = ascii_bytes(y);
    let mb = ascii_bytes(m);
    let db = ascii_bytes(dd);
    let hb = ascii_bytes(h);
    lemma_digits_no_dot(mb);
    lemma_digits_no_dot(db);
    lemma_digits_no_dot(hb);
    let e: Seq<u8> = Seq::empty();
    let s1 = e + yb;
    let s2 = s1.push(46u8);
    let s3 = s2 + mb;
    let s4 = s3.push(46u8);
    let s5 = s4 + db;
    let s6 = s5.push(46u8);
    let s7 = s6 + hb;
    assert(ascii_bytes(t) =~= s7);
    lemma_split_append(e, yb);
    assert(split_dots(s1) =~= seq![yb]);
    lemma_split_dot(s1);
    lemma_split_append(s2, mb);
    assert(split_dots(s3) =~= seq![yb, mb]);
    lemma_split_dot(s3);
    lemma_split_append(s4, db);
    assert(split_dots(s5) =~= seq![yb, mb, db]);
    lemma_split_dot(s5);
    lemma_split_append(s6, hb);
    assert(split_dots(s7) =~= seq![yb, mb, db, hb]);
    assert(s7[0] == yb[0]);
    assert(mb.len() > 0 && !(mb[0] == 43u8)) by {
        assert(is_digit(mb[0]));
    }
    assert(db.len() > 0 && !(db[0] == 43u8)) by {
        assert(is_digit(db[0]));
    }
    assert(hb.len() > 0 && !(hb[0] == 43u8)) by {
        assert(is_digit(hb[0]));
    }
    assert(unsigned_value(mb) == Some(d@.1 as int));
    assert(unsigned_value(db) == Some(d@.2 as int));
    assert(unsigned_value(hb) == Some(d@.3 as int));
    assert(date_of(d@.0, d@.1, d@.2, d@.3) == d);
}

/// The date `n` (a day number) stands for, keeping the hour. The day of the
/// year is the remainder of `n` by 365, without its sign.
pub open spec fn date_at_day(n: int, hour: u8) -> Date {
    let doy = if n < 0 {
        (-n) % 365
    } else {
        n % 365
    };
    let (month, day) = month_day_of(doy);
    date_of(year_after(n) as i16, month as u8, day as u8, hour)
}

/// Each day of the year lies in exactly one month.
proof fn month_of_day_unique(doy: int)
    requires
        0 <= doy < 365,
    ensures
        1 <= month_of_day(doy) <= 12,
        days_before_month(month_of_day(doy)) <= doy < days_before_month(month_of_day(doy) + 1),
        forall|m: int|
            1 <= m <= 12 && #[trigger] days_before_month(m) <= doy < days_before_month(m + 1)
                ==> m == month_of_day(doy),
{
    let w: int = if doy < 31 {
        1
    } else if doy < 59 {
        2
    } else if doy < 90 {
        3
    } else if doy < 120 {
        4
    } else if doy < 151 {
        5
    } else if doy < 181 {
        6
    } else if doy < 212 {
        7
    } else if doy < 243 {
        8
    } else if doy < 273 {
        9
    } else if doy < 304 {
        10
    } else if doy < 334 {
        11
    } else {
        12
    };
    assert(1 <= w <= 12 && days_before_month(w) <= doy < days_before_month(w + 1));
    assert forall|m: int|
        1 <= m <= 12 && #[trigger] days_before_month(m) <= doy < days_before_month(m + 1) implies m
            == w by {
        if m < w {
            assert(days_before_month(m + 1) <= days_before_month(w));
        } else if m > w {
            assert(days_before_month(w + 1) <= days_before_month(m));
        }
    }
}

proof fn lemma_month_day_valid(doy: int)
    requires
        0 <= doy < 365,
    ensures
        1 <= month_day_of(doy).0 <= 12,
        1 <= month_day_of(doy).1 <= days_in_month(month_day_of(doy).0),
{
    month_of_day_unique(doy);
}

/// Month and day of month for a zero based day of the year.
fn month_day_from_julian(days_since_jan1: i32) -> (r: (u8, u8))
    requires
        0 <= days_since_jan1 < 365,
    ensures
        r.0 as int == month_day_of(days_since_jan1 as int).0,
        r.1 as int == month_day_of(days_since_jan1 as int).1,
        1 <= r.0 <= 12,
        1 <= r.1 <= days_in_month(r.0 as int),
{
    proof {
        month_of_day_unique(days_since_jan1 as int);
    }
    let d = days_since_jan1;
    let (month, day): (u8, i32) = if d <= 30 {
        (1, d + 1)
    } else if d <= 58 {
        (2, d - 30)
    } else if d <= 89 {
        (3, d - 58)
    } else if d <= 119 {
        (4, d - 89)
    } else if d <= 150 {
        (5, d - 119)
    } else if d <= 180 {
        (6, d - 150)
    } else if d <= 211 {
        (7, d - 180)
    } else if d <= 242 {
        (8, d - 211)
    } else if d <= 272 {
        (9, d - 242)
    } else if d <= 303 {
        (10, d - 272)
    } else if d <= 333 {
        (11, d - 303)
    } else {
        (12, d - 333)
    };
    (month, day as u8)
}

impl Date {
    #[verifier::type_invariant]
    spec fn inv(self) -> bool {
        date_bounds(self.year as int, self.month as int, self.day as int, self.hour as int)
    }

    /// Builds a date when all the components are within the calendar's bounds.
    pub fn new(year: i16, month: u8, day: u8, hour: u8) -> (r: Option<Date>)
        ensures
            r is Some <==> valid_ymdh(year as int, month as int, day as int, hour as int),
            r matches Some(d) ==> d@ == (year, month, day, hour),
    {
        let days_per_month: u8 = if month == 2 {
            28
        } else if month == 4 || month == 6 || month == 9 || month == 11 {
            30
        } else {
            31
        };
        if year != 0 && month != 0 && day != 0 && year > -100 && hour != 0 && hour < 25 && month
            <= 12 && day <= days_per_month {
            Some(Date { year, month, day, hour })
        } else {
            None
        }
    }

    /// Year of the date
    pub fn year(&self) -> (r: i16)
        ensures
            r == self@.0,
            r > -100,
    {
        proof {
            use_type_invariant(self);
        }
        self.year
    }

    /// Month of the date
    pub fn month(&self) -> (r: u8)
        ensures
            r == self@.1,
            1 <= r <= 12,
    {
        proof {
            use_type_invariant(self);
        }
        self.month
    }

    /// Day of the date
    pub fn day(&self) -> (r: u8)
        ensures
            r == self@.2,
            1 <= r <= days_in_month(self@.1 as int),
    {
        proof {
            use_type_invariant(self);
        }
        self.day
    }

    /// Hour of the date
    pub fn hour(&self) -> (r: u8)
        ensures
            r == self@.3,
            1 <= r <= 24,
    {
        proof {
            use_type_invariant(self);
        }
        self.hour
    }

    /// Parses a date in the game format `Y.M.D.H`.
    pub fn parse_from_str(s: &str) -> (r: Option<Date>)
        ensures
            r == date_from_text(s.spec_bytes()),
    {
        let data = s.as_bytes();
        let ghost b = data@;
        if data.len() == 0 || data[0] > 57 {
            return None;
        }
        let (e1, e2, e3) = match find_dots(data) {
            Some(e) => e,
            None => return None,
        };
        let year = year_component(read_signed(data, 0, e1));
        let month = small_component(read_unsigned(data, e1 + 1, e2));
        let day = small_component(read_unsigned(data, e2 + 1, e3));
        let hour = small_component(read_unsigned(data, e3 + 1, data.len()));
        match (year, month, day, hour) {
            (Some(y), Some(m), Some(d), Some(h)) => {
                let r = Date::new(y, m, d, h);
                proof {
                    if let Some(x) = r {
                        assert(x == date_of(y, m, d, h));
                    }
                }
                r
            },
            _ => None,
        }
    }

    /// The linear day count of the date.
    pub open spec fn spec_days(self) -> int {
        day_number(self@.0 as int, self@.1 as int, self@.2 as int)
    }

    fn days(&self) -> (r: i32)
        ensures
            r as int == self.spec_days(),
            -99 * 365 - 365 <= r <= 32767 * 365 + 365,
    {
        proof {
            use_type_invariant(self);
        }
        let month_days: i32 = match self.month {
            1 => -1,
            2 => 30,
            3 => 58,
            4 => 89,
            5 => 119,
            6 => 150,
            7 => 180,
            8 => 211,
            9 => 242,
            10 => 272,
            11 => 303,
            _ => 333,
        };
        let year_day = self.year as i32 * 365;
        if year_day < 0 {
            year_day - month_days - self.day as i32
        } else {
            year_day + month_days + self.day as i32
        }
    }

    /// Returns the number of days between two dates
    pub fn days_until(&self, other: &Date) -> (r: i32)
        ensures
            r as int == other.spec_days() - self.spec_days(),
    {
        other.days() - self.days()
    }

    /// The date the given number of days later (or earlier, when negative).
    ///
    /// The day count of the result must fit in 32 bits and its year must be
    /// above -100 (the year may be zero).
    pub fn add_days(&self, days: i32) -> (r: Date)
        requires
            i32::MIN < self.spec_days() + days <= i32::MAX,
            -100 < year_after(self.spec_days() + days) <= i16::MAX,
        ensures
            r == date_at_day(self.spec_days() + days, self@.3),
    {
        proof {
            use_type_invariant(self);
        }
        let new_days = self.days() + days;
        let magnitude: i32 = if new_days < 0 {
            -new_days
        } else {
            new_days
        };
        let days_since_jan1 = magnitude % 365;
        let year: i32 = if new_days < 0 {
            -(magnitude / 365)
        } else {
            magnitude / 365
        };
        let (month, day) = month_day_from_julian(days_since_jan1);
        proof {
            lemma_month_day_valid(days_since_jan1 as int);
        }
        Date { year: year as i16, month, day, hour: self.hour }
    }

    /// Decodes a date from a number that had been parsed from binary data
    pub fn from_binary(s: i32) -> (r: Option<Date>)
        ensures
            r == date_from_binary(s as int),
    {
        if s < 0 {
            return None;
        }
        let hours: u8 = (s % 24) as u8 + 1;
        let days = s / 24;
        let days_since_jan1 = days % 365;
        let years = days / 365;
        let year = years - 5000;
        if year < i16::MIN as i32 || year > i16::MAX as i32 {
            return None;
        }
        let (month, day) = month_day_from_julian(days_since_jan1);
        let r = Date::new(year as i16, month, day, hours);
        proof {
            if let Some(d) = r {
                assert(d == date_of(year as i16, month, day, hours));
            }
        }
        r
    }

    /// Decodes a binary integer as a date where it is plausibly one: exactly
    /// when its decoded components make a valid date.
    pub fn from_binary_heuristic(s: i32) -> (r: Option<Date>)
        ensures
            r == date_from_binary(s as int),
    {
        Date::from_binary(s)
    }

    /// Formats a date in the ISO 8601 format: YYYY-MM-DDTHH
    pub fn iso_8601(&self) -> (r: String)
        ensures
            r@ == iso_text(*self),
    {
        let mut s = String::new();
        if self.year < 0 {
            push_char(&mut s, '-');
            push_padded(&mut s, (-(self.year as i32)) as u32, 3);
        } else {
            push_padded(&mut s, self.year as u32, 4);
        }
        push_char(&mut s, '-');
        push_padded(&mut s, self.month as u32, 2);
        push_char(&mut s, '-');
        push_padded(&mut s, self.day as u32, 2);
        push_char(&mut s, 'T');
        push_padded(&mut s, self.hour as u32, 2);
        assert(s@ =~= iso_text(*self));
        s
    }

    /// Formats a date in the game format: Y.M.D.H
    pub fn game_fmt(&self) -> (r: String)
        ensures
            r@ == game_text(*self),
    {
        let mut s = String::new();
        push_int(&mut s, self.year as i32);
        push_char(&mut s, '.');
        push_digits(&mut s, self.month as u32);
        push_char(&mut s, '.');
        push_digits(&mut s, self.day as u32);
        push_char(&mut s, '.');
        push_digits(&mut s, self.hour as u32);
        assert(s@ =~= game_text(*self));
        s
    }
}

} // verus!
