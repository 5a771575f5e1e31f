use vstd::prelude::*;
use vstd::utf8::encode_utf8;

use crate::benchmark::Report;

verus! {

/// The field separator of a record.
pub const COMMA: u8 = 0x2c;

/// The decimal point of a fixed-point value.
pub const POINT: u8 = 0x2e;

/// The byte of the digit `0`.
pub const ZERO: u8 = 0x30;

/// The ASCII digit for `d`, which is below ten.
pub open spec fn digit(d: int) -> u8 {
    (ZERO + d) as u8
}

/// `b` is an ASCII digit.
pub open spec fn is_digit(b: u8) -> bool {
    ZERO <= b <= ZERO + 9
}

/// Every byte of `s` is an ASCII digit.
pub open spec fn all_digits(s: Seq<u8>) -> bool {
    forall|i: int| 0 <= i < s.len() ==> #[trigger] is_digit(s[i])
}

/// `s` holds no separator.
pub open spec fn no_comma(s: Seq<u8>) -> bool {
    forall|i: int| 0 <= i < s.len() ==> #[trigger] s[i] != COMMA
}

/// The shortest decimal spelling of `n`.
pub open spec fn decimal(n: nat) -> Seq<u8>
    decreases n,
{
    if n < 10 {
        seq![digit(n as int)]
    } else {
        decimal(n / 10).push(digit((n % 10) as int))
    }
}

/// The value of a string of decimal digits, most significant first.
pub open spec fn digits_value(s: Seq<u8>) -> int
    decreases s.len(),
{
    if s.len() == 0 {
        0
    } else {
        digits_value(s.drop_last()) * 10 + (s.last() - ZERO)
    }
}

/// A picosecond count written as nanoseconds with three decimals.
pub open spec fn fixed_point(ps: nat) -> Seq<u8> {
    let frac = (ps % 1000) as int;
    decimal(ps / 1000) + seq![
        POINT,
        digit(frac / 100),
        digit((frac / 10) % 10),
        digit(frac % 10),
    ]
}

/// Appends the decimal spelling of `n`.
fn push_decimal(out: &mut Vec<u8>, n: u64)
    ensures
        final(out)@ == old(out)@ + decimal(n as nat),
    decreases n,
{
    if n >= 10 {
        push_decimal(out, n / 10);
    }
    out.push(ZERO + (n % 10) as u8);
    proof {
        if n >= 10 {
            assert(old(out)@ + decimal(n as nat) == old(out)@ + decimal((n / 10) as nat) + seq![
                digit((n % 10) as int),
            ]);
        }
    }
}

/// Appends `ps` picoseconds as nanoseconds with three decimals.
fn push_fixed_point(out: &mut Vec<u8>, ps: u64)
    ensures
        final(out)@ == old(out)@ + fixed_point(ps as nat),
{
    push_decimal(out, ps / 1000);
    let frac = ps % 1000;
    out.push(POINT);
    out.push(ZERO + (frac / 100) as u8);
    out.push(ZERO + ((frac / 10) % 10) as u8);
    out.push(ZERO + (frac % 10) as u8);
    assert(final(out)@ == old(out)@ + fixed_point(ps as nat));
}

/// Appends the bytes of `s`.
fn push_all(out: &mut Vec<u8>, s: &[u8])
    ensures
        final(out)@ == old(out)@ + s@,
{
    let mut i: usize = 0;
    while i < s.len()
        invariant
            i <= s@.len(),
            out@ == old(out)@ + s@.subrange(0, i as int),
        decreases s@.len() - i,
    {
        out.push(s[i]);
        i = i + 1;
        assert(out@ == old(out)@ + s@.subrange(0, i as int));
    }
    assert(s@.subrange(0, s@.len() as int) == s@);
}

/// The fields of one persisted result line.
pub struct RecordFields {
    pub benchmark: Seq<u8>,
    pub measurement: Seq<u8>,
    pub size: u64,
    pub central: u64,
    pub min: u64,
    pub max: u64,
    pub deviation: u64,
}

/// One persisted result line: names, size, then median, fastest, slowest and
/// deviation per operation, in picoseconds.
pub struct CsvRecord {
    pub benchmark: Vec<u8>,
    pub measurement: Vec<u8>,
    pub size: u64,
    pub central: u64,
    pub min: u64,
    pub max: u64,
    pub deviation: u64,
}

impl View for CsvRecord {
    type V = RecordFields;

    open spec fn view(&self) -> RecordFields {
        RecordFields {
            benchmark: self.benchmark@,
            measurement: self.measurement@,
            size: self.size,
            central: self.central,
            min: self.min,
            max: self.max,
            deviation: self.deviation,
        }
    }
}

/// The line for `r`, without a line end:
/// `benchmark,measurement,size,central,min,max,deviation`, times in
/// nanoseconds with three decimals.
pub open spec fn record_bytes(r: RecordFields) -> Seq<u8> {
    join(
        r.benchmark,
        join(
            r.measurement,
            join(
                decimal(r.size as nat),
                join(
                    fixed_point(r.central as nat),
                    join(
                        fixed_point(r.min as nat),
                        join(fixed_point(r.max as nat), fixed_point(r.deviation as nat)),
                    ),
                ),
            ),
        ),
    )
}

/// `field`, a separator, then `rest`.
pub open spec fn join(field: Seq<u8>, rest: Seq<u8>) -> Seq<u8> {
    field + seq![COMMA] + rest
}

/// Writes the line for a record, without a line end.
pub fn encode_record(r: &CsvRecord) -> (line: Vec<u8>)
    ensures
        line@ == record_bytes(r@),
{
    let mut line: Vec<u8> = Vec::new();
    push_all(&mut line, r.benchmark.as_slice());
    line.push(COMMA);
    push_all(&mut line, r.measurement.as_slice());
    line.push(COMMA);
    push_decimal(&mut line, r.size);
    line.push(COMMA);
    push_fixed_point(&mut line, r.central);
    line.push(COMMA);
    push_fixed_point(&mut line, r.min);
    line.push(COMMA);
    push_fixed_point(&mut line, r.max);
    line.push(COMMA);
    push_fixed_point(&mut line, r.deviation);
    assert(line@ == record_bytes(r@));
    line
}

/// The UTF-8 bytes of `s`.
fn utf8_bytes(s: &String) -> (r: Vec<u8>)
    ensures
        r@ == encode_utf8(s@),
{
    let mut r: Vec<u8> = Vec::new();
    push_all(&mut r, s.as_str().as_bytes());
    r
}

/// The record persisted for a report whose statistics could be read; none
/// for a report that holds an error.
pub fn record_of(report: &Report) -> (r: Option<CsvRecord>)
    ensures
        match report.outcome {
            Ok(st) => r matches Some(rec) && rec@ == RecordFields {
                benchmark: encode_utf8(report.benchmark@),
                measurement: encode_utf8(report.measurement@),
                size: report.size as u64,
                central: st.central,
                min: st.min,
                max: st.max,
                deviation: st.deviation,
            },
            Err(_) => r is None,
        },
{
    match report.outcome {
        Ok(st) => Some(
            CsvRecord {
                benchmark: utf8_bytes(&report.benchmark),
                measurement: utf8_bytes(&report.measurement),
                size: report.size as u64,
                central: st.central,
                min: st.min,
                max: st.max,
                deviation: st.deviation,
            },
        ),
        Err(_) => None,
    }
}

/// Position of the first separator in `s` at or after `from`; the length of
/// `s` where there is none.
pub open spec fn find_comma(s: Seq<u8>, from: int) -> int
    decreases s.len() - from,
{
    if from < 0 || from >= s.len() {
        s.len() as int
    } else if s[from] == COMMA {
        from
    } else {
        find_comma(s, from + 1)
    }
}

/// A non-empty string of digits whose value fits in `u64`.
pub open spec fn parse_decimal(s: Seq<u8>) -> Option<u64> {
    if s.len() > 0 && all_digits(s) && digits_value(s) <= u64::MAX {
        Some(digits_value(s) as u64)
    } else {
        None
    }
}

/// Digits, a point and three digits, read as a count of thousandths that
/// fits in `u64`.
pub open spec fn parse_fixed(s: Seq<u8>) -> Option<u64> {
    let n = s.len() as int;
    if n >= 5 && s[n - 4] == POINT && all_digits(s.subrange(n - 3, n)) {
        match parse_decimal(s.subrange(0, n - 4)) {
            Some(whole) => {
                let value = whole * 1000 + digits_value(s.subrange(n - 3, n));
                if value <= u64::MAX {
                    Some(value as u64)
                } else {
                    None
                }
            },
            None => None,
        }
    } else {
        None
    }
}

/// The record that the line `s` holds: seven fields split at the first six
/// separators, the third a decimal and the last four fixed-point values.
pub open spec fn parse_record_spec(s: Seq<u8>) -> Option<RecordFields> {
    let n = s.len() as int;
    let e0 = find_comma(s, 0);
    let e1 = find_comma(s, e0 + 1);
    let e2 = find_comma(s, e1 + 1);
    let e3 = find_comma(s, e2 + 1);
    let e4 = find_comma(s, e3 + 1);
    let e5 = find_comma(s, e4 + 1);
    if e5 >= n {
        None
    } else {
        match (
            parse_decimal(s.subrange(e1 + 1, e2)),
            parse_fixed(s.subrange(e2 + 1, e3)),
            parse_fixed(s.subrange(e3 + 1, e4)),
            parse_fixed(s.subrange(e4 + 1, e5)),
            parse_fixed(s.subrange(e5 + 1, n)),
        ) {
            (Some(size), Some(central), Some(min), Some(max), Some(deviation)) => Some(
                RecordFields {
                    benchmark: s.subrange(0, e0),
                    measurement: s.subrange(e0 + 1, e1),
                    size,
                    central,
                    min,
                    max,
                    deviation,
                },
            ),
            _ => None,
        }
    }
}

/// Position of the first separator in `s` at or after `from`, or its length.
fn find_comma_from(s: &Vec<u8>, from: usize) -> (r: usize)
    requires
        from <= s@.len(),
    ensures
        r == find_comma(s@, from as int),
        from <= r <= s@.len(),
{
    let mut i = from;
    while i < s.len() && s[i] != COMMA
        invariant
            from <= i <= s@.len(),
            find_comma(s@, from as int) == find_comma(s@, i as int),
        decreases s@.len() - i,
    {
        i = i + 1;
    }
    i
}

/// Position of the first separator after `end`, where `end` is a separator
/// or the length of `s`.
fn find_comma_after(s: &Vec<u8>, end: usize) -> (r: usize)
    requires
        end <= s@.len(),
    ensures
        r == find_comma(s@, end + 1),
        r <= s@.len(),
        end < s@.len() ==> end < r,
{
    if end < s.len() {
        find_comma_from(s, end + 1)
    } else {
        s.len()
    }
}

/// Copies `s[lo..hi]`.
fn copy_range(s: &Vec<u8>, lo: usize, hi: usize) -> (r: Vec<u8>)
    requires
        lo <= hi <= s@.len(),
    ensures
        r@ == s@.subrange(lo as int, hi as int),
{
    let mut r: Vec<u8> = Vec::new();
    let mut i = lo;
    while i < hi
        invariant
            lo <= i <= hi <= s@.len(),
            r@ == s@.subrange(lo as int, i as int),
        decreases hi - i,
    {
        r.push(s[i]);
        i = i + 1;
        assert(r@ == s@.subrange(lo as int, i as int));
    }
    r
}

proof fn lemma_digits_value_nonneg(s: Seq<u8>)
    requires
        all_digits(s),
    ensures
        digits_value(s) >= 0,
    decreases s.len(),
{
    if s.len() > 0 {
        assert(is_digit(s[s.len() - 1]));
        assert(all_digits(s.drop_last())) by {
            assert forall|i: int| 0 <= i < s.len() - 1 implies #[trigger] is_digit(
                s.drop_last()[i],
            ) by {
                assert(is_digit(s[i]));
            }
        }
        lemma_digits_value_nonneg(s.drop_last());
    }
}

/// A value read from a prefix of a digit string is no larger than the
/// value of the whole string.
proof fn lemma_digits_prefix(s: Seq<u8>, i: int)
    requires
        all_digits(s),
        0 <= i <= s.len(),
    ensures
        digits_value(s.subrange(0, i)) <= digits_value(s),
    decreases s.len(),
{
    if i < s.len() {
        let t = s.drop_last();
        assert(is_digit(s[s.len() - 1]));
        assert(all_digits(t)) by {
            assert forall|j: int| 0 <= j < t.len() implies #[trigger] is_digit(t[j]) by {
                assert(is_digit(s[j]));
            }
        }
        assert(t.subrange(0, i) == s.subrange(0, i));
        lemma_digits_prefix(t, i);
        lemma_digits_value_nonneg(t);
    } else {
        assert(s.subrange(0, i) == s);
    }
}

/// Reads `s[lo..hi]` as a decimal.
fn read_decimal(s: &Vec<u8>, lo: usize, hi: usize) -> (r: Option<u64>)
    requires
        lo <= hi <= s@.len(),
    ensures
        r == parse_decimal(s@.subrange(lo as int, hi as int)),
{
    let ghost whole = s@.subrange(lo as int, hi as int);
    if lo == hi {
        return None;
    }
    let mut acc: u64 = 0;
    let mut i = lo;
    while i < hi
        invariant
            lo <= i <= hi <= s@.len(),
            whole == s@.subrange(lo as int, hi as int),
            all_digits(s@.subrange(lo as int, i as int)),
            acc == digits_value(s@.subrange(lo as int, i as int)),
        decreases hi - i,
    {
        let b = s[i];
        if b < ZERO || b > ZERO + 9 {
            assert(!is_digit(whole[i - lo]));
            return None;
        }
        let d = (b - ZERO) as u64;
        assert(s@.subrange(lo as int, i + 1).drop_last() == s@.subrange(lo as int, i as int));
        if acc > (u64::MAX - d) / 10 {
            proof {
                if all_digits(whole) {
                    assert(whole.subrange(0, i + 1 - lo) == s@.subrange(lo as int, i + 1));
                    lemma_digits_prefix(whole, i + 1 - lo);
                }
            }
            return None;
        }
        acc = acc * 10 + d;
        i = i + 1;
    }
    Some(acc)
}

/// Reads `s[lo..hi]` as a fixed-point value with three decimals.
fn read_fixed(s: &Vec<u8>, lo: usize, hi: usize) -> (r: Option<u64>)
    requires
        lo <= hi <= s@.len(),
    ensures
        r == parse_fixed(s@.subrange(lo as int, hi as int)),
{
    let ghost t = s@.subrange(lo as int, hi as int);
    if hi - lo < 5 || s[hi - 4] != POINT {
        return None;
    }
    let a = s[hi - 3];
    let b = s[hi - 2];
    let c = s[hi - 1];
    let ghost tail = t.subrange(t.len() - 3, t.len() as int);
    assert(tail == seq![a, b, c]);
    if a < ZERO || a > ZERO + 9 || b < ZERO || b > ZERO + 9 || c < ZERO || c > ZERO + 9 {
        assert(!is_digit(tail[0]) || !is_digit(tail[1]) || !is_digit(tail[2]));
        return None;
    }
    assert(all_digits(tail));
    let frac = (a - ZERO) as u64 * 100 + (b - ZERO) as u64 * 10 + (c - ZERO) as u64;
    assert(seq![a].drop_last() == Seq::<u8>::empty());
    assert(seq![a, b].drop_last() == seq![a]);
    assert(tail.drop_last() == seq![a, b]);
    assert(digits_value(Seq::<u8>::empty()) == 0);
    assert(seq![a].last() == a);
    assert(digits_value(seq![a]) == a - ZERO);
    assert(digits_value(seq![a, b]) == (a - ZERO) * 10 + (b - ZERO));
    assert(digits_value(tail) == frac);
    assert(t.subrange(0, t.len() - 4) == s@.subrange(lo as int, hi - 4));
    match read_decimal(s, lo, hi - 4) {
        Some(whole) => {
            if whole > (u64::MAX - frac) / 1000 {
                None
            } else {
                Some(whole * 1000 + frac)
            }
        },
        None => None,
    }
}

/// Reads a line, without its line end, as a record.
pub fn parse_record(line: &Vec<u8>) -> (r: Option<CsvRecord>)
    ensures
        match parse_record_spec(line@) {
            Some(fields) => r matches Some(rec) && rec@ == fields,
            None => r is None,
        },
{
    let n = line.len();
    let e0 = find_comma_from(line, 0);
    let e1 = find_comma_after(line, e0);
    let e2 = find_comma_after(line, e1);
    let e3 = find_comma_after(line, e2);
    let e4 = find_comma_after(line, e3);
    let e5 = find_comma_after(line, e4);
    if e5 >= n {
        return None;
    }
    let size = match read_decimal(line, e1 + 1, e2) {
        Some(v) => v,
        None => {
            return None;
        },
    };
    let central = match read_fixed(line, e2 + 1, e3) {
        Some(v) => v,
        None => {
            return None;
        },
    };
    let min = match read_fixed(line, e3 + 1, e4) {
        Some(v) => v,
        None => {
            return None;
        },
    };
    let max = match read_fixed(line, e4 + 1, e5) {
        Some(v) => v,
        None => {
            return None;
        },
    };
    let deviation = match read_fixed(line, e5 + 1, n) {
        Some(v) => v,
        None => {
            return None;
        },
    };
    Some(
        CsvRecord {
            benchmark: copy_range(line, 0, e0),
            measurement: copy_range(line, e0 + 1, e1),
            size,
            central,
            min,
            max,
            deviation,
        },
    )
}

proof fn lemma_decimal(n: nat)
    ensures
        decimal(n).len() >= 1,
        all_digits(decimal(n)),
        digits_value(decimal(n)) == n,
    decreases n,
{
    if n < 10 {
        assert(seq![digit(n as int)].drop_last() == Seq::<u8>::empty());
        assert(digits_value(Seq::<u8>::empty()) == 0);
    } else {
        lemma_decimal(n / 10);
        let d = decimal(n);
        assert(d.drop_last() == decimal(n / 10));
        assert forall|i: int| 0 <= i < d.len() implies #[trigger] is_digit(d[i]) by {
            if i < d.len() - 1 {
                assert(is_digit(decimal(n / 10)[i]));
            }
        }
    }
}

proof fn lemma_digits_no_comma(s: Seq<u8>)
    requires
        all_digits(s),
    ensures
        no_comma(s),
{
    assert forall|i: int| 0 <= i < s.len() implies #[trigger] s[i] != COMMA by {
        assert(is_digit(s[i]));
    }
}

proof fn lemma_fixed_point(ps: u64)
    ensures
        parse_fixed(fixed_point(ps as nat)) == Some(ps),
        no_comma(fixed_point(ps as nat)),
{
    let w = (ps / 1000) as nat;
    let frac = (ps % 1000) as int;
    let a = digit(frac / 100);
    let b = digit((frac / 10) % 10);
    let c = digit(frac % 10);
    let t = fixed_point(ps as nat);
    let n = t.len() as int;
    lemma_decimal(w);
    lemma_digits_no_comma(decimal(w));
    assert(t == decimal(w) + seq![POINT, a, b, c]);
    assert(t[n - 4] == POINT);
    let tail = t.subrange(n - 3, n);
    assert(tail == seq![a, b, c]);
    assert(all_digits(tail));
    assert(seq![a].drop_last() == Seq::<u8>::empty());
    assert(seq![a, b].drop_last() == seq![a]);
    assert(tail.drop_last() == seq![a, b]);
    assert(digits_value(Seq::<u8>::empty()) == 0);
    assert(seq![a].last() == a);
    assert(digits_value(seq![a]) == frac / 100);
    assert(digits_value(seq![a, b]) == (frac / 100) * 10 + (frac / 10) % 10);
    assert(digits_value(tail) == frac);
    assert(t.subrange(0, n - 4) == decimal(w));
    assert(parse_decimal(decimal(w)) == Some(w as u64));
    assert forall|i: int| 0 <= i < n implies #[trigger] t[i] != COMMA by {
        if i < n - 4 {
            assert(decimal(w)[i] != COMMA);
        }
    }
}

proof fn lemma_find_comma_block(s: Seq<u8>, from: int, p: int)
    requires
        0 <= from <= p < s.len(),
        s[p] == COMMA,
        forall|i: int| from <= i < p ==> s[i] != COMMA,
    ensures
        find_comma(s, from) == p,
    decreases p - from,
{
    if from < p {
        lemma_find_comma_block(s, from + 1, p);
    }
}

/// In `head` followed by `piece`, a separator and `rest`, with no separator
/// in `piece`, the field that starts after `head` is `piece`.
proof fn lemma_field_at(s: Seq<u8>, head: Seq<u8>, piece: Seq<u8>, rest: Seq<u8>)
    requires
        s == head + join(piece, rest),
        no_comma(piece),
    ensures
        find_comma(s, head.len() as int) == head.len() + piece.len(),
        s.subrange(head.len() as int, (head.len() + piece.len()) as int) == piece,
        s == (head + piece + seq![COMMA]) + rest,
{
    let start = head.len() as int;
    let end = start + piece.len();
    assert(s == (head + piece + seq![COMMA]) + rest);
    assert(s.subrange(start, end) == piece);
    assert forall|i: int| start <= i < end implies s[i] != COMMA by {
        assert(s[i] == piece[i - start]);
    }
    lemma_find_comma_block(s, start, end);
}

/// Reading back the line written for a record gives the record, provided
/// neither name holds a separator.
#[verifier::rlimit(40)]
pub proof fn lemma_record_round_trip(r: RecordFields)
    requires
        no_comma(r.benchmark),
        no_comma(r.measurement),
    ensures
        parse_record_spec(record_bytes(r)) == Some(r),
{
    let sep = seq![COMMA];
    let b = r.benchmark;
    let m = r.measurement;
    let d = decimal(r.size as nat);
    let f1 = fixed_point(r.central as nat);
    let f2 = fixed_point(r.min as nat);
    let f3 = fixed_point(r.max as nat);
    let f4 = fixed_point(r.deviation as nat);
    lemma_decimal(r.size as nat);
    lemma_digits_no_comma(d);
    lemma_fixed_point(r.central);
    lemma_fixed_point(r.min);
    lemma_fixed_point(r.max);
    lemma_fixed_point(r.deviation);
    let t5 = join(f3, f4);
    let t4 = join(f2, t5);
    let t3 = join(f1, t4);
    let t2 = join(d, t3);
    let t1 = join(m, t2);
    let s = record_bytes(r);
    let h0 = Seq::<u8>::empty();
    assert(s == h0 + join(b, t1));
    lemma_field_at(s, h0, b, t1);
    let h1 = h0 + b + sep;
    lemma_field_at(s, h1, m, t2);
    let h2 = h1 + m + sep;
    lemma_field_at(s, h2, d, t3);
    let h3 = h2 + d + sep;
    lemma_field_at(s, h3, f1, t4);
    let h4 = h3 + f1 + sep;
    lemma_field_at(s, h4, f2, t5);
    let h5 = h4 + f2 + sep;
    lemma_field_at(s, h5, f3, f4);
    let h6 = h5 + f3 + sep;
    assert(s.subrange(h6.len() as int, s.len() as int) == f4);
    assert(s.subrange(0, b.len() as int) == b);
    assert(parse_decimal(d) == Some(r.size));
}

} // verus!
