//! Byte-level text primitives for the diagnostic log: line and field splitting
//! and the integer syntax of Rust's `str::parse`.
use vstd::prelude::*;

verus! {

pub const NEWLINE: u8 = 0x0a;
pub const CARRIAGE_RETURN: u8 = 0x0d;
pub const COMMA: u8 = 0x2c;
pub const PLUS: u8 = 0x2b;
pub const MINUS: u8 = 0x2d;

/// Index of the first `b` in `t`, or `t.len()` when there is none.
pub open spec fn find(t: Seq<u8>, b: u8) -> int
    decreases t.len(),
{
    if t.len() == 0 {
        0
    } else if t[0] == b {
        0
    } else {
        1 + find(t.drop_first(), b)
    }
}

/// `find` is the first position of `b` (or the end).
pub proof fn lemma_find(t: Seq<u8>, b: u8, k: int)
    requires
        0 <= k <= t.len(),
        forall|i: int| 0 <= i < k ==> t[i] != b,
        k == t.len() || t[k] == b,
    ensures
        find(t, b) == k,
    decreases k,
{
    if k > 0 {
        lemma_find(t.drop_first(), b, k - 1);
    }
}

/// A line without its trailing carriage return (of a `\r\n` line ending).
pub open spec fn strip_cr(l: Seq<u8>) -> Seq<u8> {
    if l.len() > 0 && l.last() == CARRIAGE_RETURN { l.drop_last() } else { l }
}

/// The lines of `t` as `str::lines` gives them: split at `\n`, a `\r` before the `\n`
/// removed, and no empty line after a final line ending.
#[verifier::opaque]
pub open spec fn lines_of(t: Seq<u8>) -> Seq<Seq<u8>>
    decreases t.len(),
{
    if t.len() == 0 {
        seq![]
    } else {
        let i = find(t, NEWLINE);
        proof {
            lemma_find_bounds(t, NEWLINE);
        }
        if i >= t.len() {
            seq![t]
        } else {
            seq![strip_cr(t.subrange(0, i))] + lines_of(t.subrange(i + 1, t.len() as int))
        }
    }
}

/// The comma-separated fields of `l` as `str::split(',')` gives them (at least one).
#[verifier::opaque]
pub open spec fn fields_of(l: Seq<u8>) -> Seq<Seq<u8>>
    decreases l.len(),
{
    let i = find(l, COMMA);
    proof {
        lemma_find_bounds(l, COMMA);
    }
    if i >= l.len() {
        seq![l]
    } else {
        seq![l.subrange(0, i)] + fields_of(l.subrange(i + 1, l.len() as int))
    }
}

pub proof fn lemma_find_bounds(t: Seq<u8>, b: u8)
    ensures
        0 <= find(t, b) <= t.len(),
        find(t, b) < t.len() ==> t[find(t, b)] == b,
        forall|i: int| 0 <= i < find(t, b) ==> t[i] != b,
    decreases t.len(),
{
    if t.len() > 0 && t[0] != b {
        lemma_find_bounds(t.drop_first(), b);
        assert forall|i: int| 0 <= i < find(t, b) implies t[i] != b by {
            if i > 0 {
                assert(t[i] == t.drop_first()[i - 1]);
            }
        }
    }
}

/// Byte ranges `[start, end)` of a text, viewed as the byte sequences they select.
pub open spec fn ranges_view(t: Seq<u8>, ranges: Seq<(usize, usize)>) -> Seq<Seq<u8>> {
    Seq::new(ranges.len(), |i: int| t.subrange(ranges[i].0 as int, ranges[i].1 as int))
}

pub open spec fn ranges_within(ranges: Seq<(usize, usize)>, len: int) -> bool {
    forall|i: int| 0 <= i < ranges.len() ==> #[trigger] ranges[i].0 <= ranges[i].1 && ranges[i].1 <= len
}

/// The first position in `[from, to)` holding `b`, or `to`.
fn find_byte(bytes: &[u8], from: usize, to: usize, b: u8) -> (k: usize)
    requires
        from <= to <= bytes@.len(),
    ensures
        from <= k <= to,
        k < to ==> bytes@[k as int] == b,
        forall|i: int| from <= i < k ==> bytes@[i] != b,
        find(bytes@.subrange(from as int, to as int), b) == k - from,
{
    let mut k = from;
    while k < to && bytes[k] != b
        invariant
            from <= k <= to,
            to <= bytes@.len(),
            forall|i: int| from <= i < k ==> bytes@[i] != b,
        decreases to - k,
    {
        k = k + 1;
    }
    proof {
        let sub = bytes@.subrange(from as int, to as int);
        lemma_find(sub, b, k - from);
    }
    k
}

/// The line ranges of `bytes` (see [`lines_of`]).
pub fn split_lines(bytes: &[u8]) -> (r: Vec<(usize, usize)>)
    ensures
        ranges_view(bytes@, r@) == lines_of(bytes@),
        ranges_within(r@, bytes@.len() as int),
{
    let n = bytes.len();
    let mut out: Vec<(usize, usize)> = Vec::new();
    let mut pos: usize = 0;
    proof {
        assert(bytes@.subrange(0, n as int) =~= bytes@);
        assert(ranges_view(bytes@, out@) =~= seq![]);
    }
    while pos < n
        invariant
            pos <= n == bytes@.len(),
            ranges_within(out@, n as int),
            ranges_view(bytes@, out@) + lines_of(bytes@.subrange(pos as int, n as int)) == lines_of(bytes@),
        decreases n - pos,
    {
        let ghost rest = bytes@.subrange(pos as int, n as int);
        let k = find_byte(bytes, pos, n, NEWLINE);
        let ghost old_out = out@;
        proof {
            reveal(lines_of);
        }
        if k == n {
            out.push((pos, n));
            proof {
                assert(lines_of(rest) == seq![rest]);
                assert(ranges_view(bytes@, out@) =~= ranges_view(bytes@, old_out).push(rest));
                assert(bytes@.subrange(n as int, n as int) =~= Seq::<u8>::empty());
                assert(lines_of(bytes@.subrange(n as int, n as int)) =~= seq![]);
                assert(ranges_view(bytes@, out@) + lines_of(bytes@.subrange(n as int, n as int)) =~= ranges_view(bytes@, old_out) + lines_of(rest));
            }
            pos = n;
        } else {
            let end = if k > pos && bytes[k - 1] == CARRIAGE_RETURN { k - 1 } else { k };
            out.push((pos, end));
            proof {
                let line = rest.subrange(0, k - pos);
                assert(bytes@.subrange(pos as int, end as int) =~= strip_cr(line));
                assert(rest.subrange(k - pos + 1, rest.len() as int) =~= bytes@.subrange(k + 1, n as int));
                assert(lines_of(rest) =~= seq![strip_cr(line)] + lines_of(bytes@.subrange(k + 1, n as int)));
                assert(ranges_view(bytes@, out@) =~= ranges_view(bytes@, old_out).push(strip_cr(line)));
                assert(ranges_view(bytes@, out@) + lines_of(bytes@.subrange(k + 1, n as int)) =~= ranges_view(bytes@, old_out) + lines_of(rest));
            }
            pos = k + 1;
        }
    }
    proof {
        reveal(lines_of);
        assert(bytes@.subrange(n as int, n as int) =~= Seq::<u8>::empty());
        assert(ranges_view(bytes@, out@) + lines_of(bytes@.subrange(n as int, n as int)) =~= ranges_view(bytes@, out@));
    }
    out
}

/// The field ranges of the line `[start, end)` of `bytes` (see [`fields_of`]).
pub fn split_fields(bytes: &[u8], start: usize, end: usize) -> (r: Vec<(usize, usize)>)
    requires
        start <= end <= bytes@.len(),
    ensures
        ranges_view(bytes@, r@) == fields_of(bytes@.subrange(start as int, end as int)),
        ranges_within(r@, bytes@.len() as int),
        r@.len() >= 1,
{
    let mut out: Vec<(usize, usize)> = Vec::new();
    let mut pos: usize = start;
    proof {
        reveal(fields_of);
        assert(ranges_view(bytes@, out@) =~= seq![]);
    }
    loop
        invariant
            start <= pos <= end <= bytes@.len(),
            ranges_within(out@, bytes@.len() as int),
            ranges_view(bytes@, out@) + fields_of(bytes@.subrange(pos as int, end as int))
                == fields_of(bytes@.subrange(start as int, end as int)),
        decreases end - pos,
    {
        let ghost rest = bytes@.subrange(pos as int, end as int);
        let k = find_byte(bytes, pos, end, COMMA);
        let ghost old_out = out@;
        proof {
            reveal(fields_of);
        }
        out.push((pos, k));
        proof {
            assert(ranges_within(out@, bytes@.len() as int)) by {
                assert forall|i: int| 0 <= i < out@.len() implies #[trigger] out@[i].0 <= out@[i].1 && out@[i].1 <= bytes@.len() by {
                    if i < old_out.len() {
                        assert(out@[i] == old_out[i]);
                    }
                }
            }
        }
        if k == end {
            proof {
                assert(fields_of(rest) == seq![rest]);
                assert(ranges_view(bytes@, out@) =~= ranges_view(bytes@, old_out).push(rest));
                assert(ranges_view(bytes@, out@) =~= ranges_view(bytes@, old_out) + fields_of(rest));
            }
            return out;
        }
        proof {
            let field = rest.subrange(0, k - pos);
            assert(bytes@.subrange(pos as int, k as int) =~= field);
            assert(rest.subrange(k - pos + 1, rest.len() as int) =~= bytes@.subrange(k + 1, end as int));
            assert(fields_of(rest) =~= seq![field] + fields_of(bytes@.subrange(k + 1, end as int)));
            assert(ranges_view(bytes@, out@) =~= ranges_view(bytes@, old_out).push(field));
            assert(ranges_view(bytes@, out@) + fields_of(bytes@.subrange(k + 1, end as int)) =~= ranges_view(bytes@, old_out) + fields_of(rest));
        }
        pos = k + 1;
    }
}

/// Whether the range `[start, end)` of `bytes` holds exactly `expected`.
pub fn range_equals(bytes: &[u8], start: usize, end: usize, expected: &[u8]) -> (r: bool)
    requires
        start <= end <= bytes@.len(),
    ensures
        r == (bytes@.subrange(start as int, end as int) == expected@),
{
    if end - start != expected.len() {
        return false;
    }
    let mut i: usize = 0;
    while i < expected.len()
        invariant
            start <= end <= bytes@.len(),
            end - start == expected@.len(),
            i <= expected@.len(),
            forall|j: int| 0 <= j < i ==> bytes@[start + j] == expected@[j],
        decreases expected@.len() - i,
    {
        if bytes[start + i] != expected[i] {
            proof {
                assert(bytes@.subrange(start as int, end as int)[i as int] != expected@[i as int]);
            }
            return false;
        }
        i = i + 1;
    }
    proof {
        assert(bytes@.subrange(start as int, end as int) =~= expected@);
    }
    true
}

// ---------------------------------------------------------------------------
// Integer syntax of `str::parse` / `from_str_radix`.
// ---------------------------------------------------------------------------

pub open spec fn is_digit(c: u8, radix: nat) -> bool {
    if radix == 16 {
        (0x30 <= c <= 0x39) || (0x61 <= c <= 0x66) || (0x41 <= c <= 0x46)
    } else {
        0x30 <= c <= 0x39
    }
}

pub open spec fn digit_value(c: u8) -> nat {
    if 0x30 <= c <= 0x39 {
        (c - 0x30) as nat
    } else if 0x61 <= c <= 0x66 {
        (c - 0x61 + 10) as nat
    } else {
        (c - 0x41 + 10) as nat
    }
}

pub open spec fn all_digits(d: Seq<u8>, radix: nat) -> bool {
    forall|i: int| 0 <= i < d.len() ==> #[trigger] is_digit(d[i], radix)
}

/// The value of a digit string in `radix`.
pub open spec fn digits_value(d: Seq<u8>, radix: nat) -> nat
    decreases d.len(),
{
    if d.len() == 0 {
        0
    } else {
        digits_value(d.drop_last(), radix) * radix + digit_value(d.last())
    }
}

/// The value of `f` as an unsigned integer of maximum `max` in `radix`: an optional `+`, then
/// at least one digit; `None` for anything else or a value over `max`.
pub open spec fn parse_unsigned(f: Seq<u8>, radix: nat, max: nat) -> Option<nat> {
    if f.len() == 0 || (f.len() == 1 && (f[0] == PLUS || f[0] == MINUS)) {
        None
    } else {
        let d = if f[0] == PLUS { f.drop_first() } else { f };
        if all_digits(d, radix) && digits_value(d, radix) <= max { Some(digits_value(d, radix)) } else { None }
    }
}

/// The value of `f` as a signed decimal integer in `[-min_magnitude, max]`: an optional sign,
/// then at least one digit; `None` for anything else or a value out of range.
pub open spec fn parse_signed(f: Seq<u8>, min_magnitude: nat, max: nat) -> Option<int> {
    if f.len() == 0 || (f.len() == 1 && (f[0] == PLUS || f[0] == MINUS)) {
        None
    } else if f[0] == MINUS {
        let d = f.drop_first();
        if all_digits(d, 10) && digits_value(d, 10) <= min_magnitude { Some(-digits_value(d, 10)) } else { None }
    } else {
        let d = if f[0] == PLUS { f.drop_first() } else { f };
        if all_digits(d, 10) && digits_value(d, 10) <= max { Some(digits_value(d, 10) as int) } else { None }
    }
}

fn digit_of(c: u8, radix: u32) -> (r: Option<u8>)
    requires
        radix == 10 || radix == 16,
    ensures
        r is Some <==> is_digit(c, radix as nat),
        r matches Some(v) ==> v == digit_value(c) && v < radix,
{
    if 0x30 <= c && c <= 0x39 {
        Some(c - 0x30)
    } else if radix == 16 && 0x61 <= c && c <= 0x66 {
        Some(c - 0x61 + 10)
    } else if radix == 16 && 0x41 <= c && c <= 0x46 {
        Some(c - 0x41 + 10)
    } else {
        None
    }
}

/// Parses the digits `[start, end)` in `radix`: `None` when one is not a digit or the value exceeds `max`.
fn parse_digits(bytes: &[u8], start: usize, end: usize, radix: u32, max: u64) -> (r: Option<u64>)
    requires
        start <= end <= bytes@.len(),
        radix == 10 || radix == 16,
    ensures
        ({
            let d = bytes@.subrange(start as int, end as int);
            r == if all_digits(d, radix as nat) && digits_value(d, radix as nat) <= max {
                Some(digits_value(d, radix as nat) as u64)
            } else {
                None::<u64>
            }
        }),
{
    let ghost d = bytes@.subrange(start as int, end as int);
    let mut value: u128 = 0;
    let mut over = false;
    let mut i = start;
    while i < end
        invariant
            start <= i <= end <= bytes@.len(),
            radix == 10 || radix == 16,
            d == bytes@.subrange(start as int, end as int),
            all_digits(d.subrange(0, i - start), radix as nat),
            over ==> digits_value(d.subrange(0, i - start), radix as nat) > max,
            !over ==> value == digits_value(d.subrange(0, i - start), radix as nat) && value <= max,
        decreases end - i,
    {
        let ghost prefix = d.subrange(0, i - start);
        let ghost next = d.subrange(0, i - start + 1);
        proof {
            assert(next.drop_last() =~= prefix);
            assert(next.last() == bytes@[i as int]);
        }
        match digit_of(bytes[i], radix) {
            None => {
                proof {
                    assert(!is_digit(d[i - start], radix as nat));
                }
                return None;
            },
            Some(v) => {
                proof {
                    assert(all_digits(next, radix as nat)) by {
                        assert forall|j: int| 0 <= j < next.len() implies #[trigger] is_digit(next[j], radix as nat) by {
                            if j < prefix.len() {
                                assert(next[j] == prefix[j]);
                            }
                        }
                    }
                }
                if !over {
                    value = value * radix as u128 + v as u128;
                    if value > max as u128 {
                        over = true;
                    }
                } else {
                    proof {
                        assert(digits_value(next, radix as nat) >= digits_value(prefix, radix as nat)) by (nonlinear_arith)
                            requires
                                digits_value(next, radix as nat) == digits_value(prefix, radix as nat) * (radix as nat) + digit_value(bytes@[i as int]),
                                radix >= 10;
                    }
                }
            },
        }
        i = i + 1;
    }
    proof {
        assert(d.subrange(0, end - start) =~= d);
    }
    if over {
        None
    } else {
        Some(value as u64)
    }
}

/// `str::parse` / `from_str_radix` for an unsigned type of maximum `max`, on `[start, end)`.
pub fn parse_unsigned_range(bytes: &[u8], start: usize, end: usize, radix: u32, max: u64) -> (r: Option<u64>)
    requires
        start <= end <= bytes@.len(),
        radix == 10 || radix == 16,
    ensures
        match parse_unsigned(bytes@.subrange(start as int, end as int), radix as nat, max as nat) {
            Some(v) => r == Some(v as u64),
            None => r is None,
        },
{
    let ghost f = bytes@.subrange(start as int, end as int);
    if end == start || (end - start == 1 && (bytes[start] == PLUS || bytes[start] == MINUS)) {
        return None;
    }
    let digits_start = if bytes[start] == PLUS { start + 1 } else { start };
    proof {
        if bytes[start as int] == PLUS {
            assert(f.drop_first() =~= bytes@.subrange(digits_start as int, end as int));
        } else {
            assert(f =~= bytes@.subrange(digits_start as int, end as int));
        }
    }
    parse_digits(bytes, digits_start, end, radix, max)
}

/// `str::parse` for a signed decimal type with range `[-min_magnitude, max]`, on `[start, end)`.
pub fn parse_signed_range(bytes: &[u8], start: usize, end: usize, min_magnitude: u64, max: u64) -> (r: Option<i128>)
    requires
        start <= end <= bytes@.len(),
    ensures
        match parse_signed(bytes@.subrange(start as int, end as int), min_magnitude as nat, max as nat) {
            Some(v) => r == Some(v as i128),
            None => r is None,
        },
{
    let ghost f = bytes@.subrange(start as int, end as int);
    if end == start || (end - start == 1 && (bytes[start] == PLUS || bytes[start] == MINUS)) {
        return None;
    }
    if bytes[start] == MINUS {
        proof {
            assert(f.drop_first() =~= bytes@.subrange(start + 1, end as int));
        }
        match parse_digits(bytes, start + 1, end, 10, min_magnitude) {
            Some(v) => Some(-(v as i128)),
            None => None,
        }
    } else {
        let digits_start = if bytes[start] == PLUS { start + 1 } else { start };
        proof {
            if bytes[start as int] == PLUS {
                assert(f.drop_first() =~= bytes@.subrange(digits_start as int, end as int));
            } else {
                assert(f =~= bytes@.subrange(digits_start as int, end as int));
            }
        }
        match parse_digits(bytes, digits_start, end, 10, max) {
            Some(v) => Some(v as i128),
            None => None,
        }
    }
}

} // verus!
