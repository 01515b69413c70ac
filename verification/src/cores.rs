use vstd::prelude::*;
use vstd::string::StringSliceAdditionalSpecFns;
use vstd::utf8::{encode_utf8, is_ascii_chars, is_ascii_chars_encode_utf8};

use crate::text::{ascii_bytes, decimal, lemma_decimal_digits, push_decimal};

verus! {

/// Why a list of CPU cores could not be read.
#[derive(Clone, Copy, Debug, PartialEq, Eq, Structural)]
pub enum CoresError {
    /// An item between two commas (or at either end) is empty.
    EmptyItem,
    /// A core id is missing or holds a byte that is not a decimal digit.
    InvalidNumber,
    /// A core id does not fit in 16 bits.
    OutOfRange,
    /// A range `a-b` has `a > b`.
    ReversedRange,
}

/// ASCII `,`, which separates the items of a core list.
pub open spec fn comma() -> u8 {
    44u8
}

/// ASCII `-`, which joins the two ends of a range.
pub open spec fn dash() -> u8 {
    45u8
}

/// ASCII `0` to `9`.
pub open spec fn is_digit(b: u8) -> bool {
    48 <= b <= 57
}

pub open spec fn all_digits(s: Seq<u8>) -> bool {
    forall|i: int| 0 <= i < s.len() ==> #[trigger] is_digit(s[i])
}

/// Index of the first `c` in `s`, or `s.len()` when there is none.
pub open spec fn first_index_of(s: Seq<u8>, c: u8) -> nat
    decreases s.len(),
{
    if s.len() == 0 {
        0
    } else if s[0] == c {
        0
    } else {
        1 + first_index_of(s.drop_first(), c)
    }
}

/// The number that the decimal digits `s` spell.
pub open spec fn digits_value(s: Seq<u8>) -> nat
    decreases s.len(),
{
    if s.len() == 0 {
        0
    } else {
        digits_value(s.drop_last()) * 10 + (s.last() - 48) as nat
    }
}

/// A single core id: one or more decimal digits whose value fits in 16 bits.
pub open spec fn spec_core_id(s: Seq<u8>) -> Result<u16, CoresError> {
    if s.len() == 0 || !all_digits(s) {
        Err(CoresError::InvalidNumber)
    } else if digits_value(s) > u16::MAX {
        Err(CoresError::OutOfRange)
    } else {
        Ok(digits_value(s) as u16)
    }
}

/// The cores `lo`, `lo + 1`, ..., `hi`.
pub open spec fn core_range(lo: u16, hi: u16) -> Seq<u16> {
    Seq::new((hi - lo + 1) as nat, |i: int| (lo + i) as u16)
}

/// One comma-separated item: a core id `n`, or an inclusive range `a-b`.
pub open spec fn spec_item(s: Seq<u8>) -> Result<Seq<u16>, CoresError> {
    if s.len() == 0 {
        Err(CoresError::EmptyItem)
    } else {
        let d = first_index_of(s, dash());
        if d == s.len() {
            match spec_core_id(s) {
                Ok(c) => Ok(seq![c]),
                Err(e) => Err(e),
            }
        } else {
            match spec_core_id(s.take(d as int)) {
                Err(e) => Err(e),
                Ok(lo) => match spec_core_id(s.skip(d + 1int)) {
                    Err(e) => Err(e),
                    Ok(hi) => if lo <= hi {
                        Ok(core_range(lo, hi))
                    } else {
                        Err(CoresError::ReversedRange)
                    },
                },
            }
        }
    }
}

/// A core list: items separated by commas, read left to right; the cores of
/// each item follow those of the items before it, and the first item that
/// cannot be read decides the error.
pub open spec fn spec_parse_cores(s: Seq<u8>) -> Result<Seq<u16>, CoresError>
    decreases s.len(),
{
    let k = first_index_of(s, comma());
    match spec_item(s.take(k as int)) {
        Err(e) => Err(e),
        Ok(v) => if k >= s.len() {
            Ok(v)
        } else {
            match spec_parse_cores(s.skip(k + 1int)) {
                Ok(w) => Ok(v + w),
                Err(e) => Err(e),
            }
        },
    }
}

/// `r` with `acc` in front of its cores, errors left as they are.
pub open spec fn prepend_cores(acc: Seq<u16>, r: Result<Seq<u16>, CoresError>) -> Result<
    Seq<u16>,
    CoresError,
> {
    match r {
        Ok(w) => Ok(acc + w),
        Err(e) => Err(e),
    }
}

proof fn lemma_first_index_of(s: Seq<u8>, c: u8, k: int)
    requires
        0 <= k <= s.len(),
        forall|j: int| 0 <= j < k ==> s[j] != c,
        k < s.len() ==> s[k] == c,
    ensures
        first_index_of(s, c) == k,
    decreases k,
{
    if k > 0 {
        assert(s[0] != c);
        lemma_first_index_of(s.drop_first(), c, k - 1);
    }
}

/// Position of the first `c` in `b[start..end]`, or `end` when there is none.
fn find_byte(b: &[u8], start: usize, end: usize, c: u8) -> (k: usize)
    requires
        start <= end <= b@.len(),
    ensures
        start <= k <= end,
        k - start == first_index_of(b@.subrange(start as int, end as int), c),
{
    let mut i = start;
    while i < end && b[i] != c
        invariant
            start <= i <= end <= b@.len(),
            forall|j: int| start <= j < i ==> b@[j] != c,
        decreases end - i,
    {
        i = i + 1;
    }
    proof {
        lemma_first_index_of(b@.subrange(start as int, end as int), c, i - start);
    }
    i
}

pub open spec fn min_nat(a: nat, b: nat) -> nat {
    if a <= b {
        a
    } else {
        b
    }
}

/// Reads the core id `b[start..end]`.
fn parse_core_id(b: &[u8], start: usize, end: usize) -> (r: Result<u16, CoresError>)
    requires
        start <= end <= b@.len(),
    ensures
        r == spec_core_id(b@.subrange(start as int, end as int)),
{
    let ghost s = b@.subrange(start as int, end as int);
    if start == end {
        return Err(CoresError::InvalidNumber);
    }
    let mut acc: u32 = 0;
    let mut i = start;
    while i < end
        invariant
            start < end <= b@.len(),
            start <= i <= end,
            s == b@.subrange(start as int, end as int),
            forall|j: int| start <= j < i ==> is_digit(#[trigger] b@[j]),
            acc == min_nat(digits_value(b@.subrange(start as int, i as int)), 65536),
        decreases end - i,
    {
        let c = b[i];
        if c < 48 || c > 57 {
            proof {
                assert(s[i - start] == c);
                assert(!is_digit(s[i - start]));
            }
            return Err(CoresError::InvalidNumber);
        }
        proof {
            let t = b@.subrange(start as int, i + 1);
            assert(t.drop_last() =~= b@.subrange(start as int, i as int));
            assert(t.last() == c);
        }
        if acc >= 65536 {
            acc = 65536;
        } else {
            let v = acc * 10 + (c - 48) as u32;
            acc = if v > 65536 {
                65536
            } else {
                v
            };
        }
        i = i + 1;
    }
    proof {
        assert(s =~= b@.subrange(start as int, i as int));
        assert forall|j: int| 0 <= j < s.len() implies #[trigger] is_digit(s[j]) by {
            assert(s[j] == b@[start + j]);
        }
    }
    if acc > 65535 {
        Err(CoresError::OutOfRange)
    } else {
        Ok(acc as u16)
    }
}

/// Appends `lo`, ..., `hi` to `out`.
fn push_range(out: &mut Vec<u16>, lo: u16, hi: u16)
    requires
        lo <= hi,
    ensures
        final(out)@ == old(out)@ + core_range(lo, hi),
{
    let ghost base = out@;
    let mut x: u32 = lo as u32;
    while x <= hi as u32
        invariant
            lo <= x <= hi as u32 + 1,
            lo <= hi,
            out@ =~= base + Seq::new((x - lo) as nat, |i: int| (lo + i) as u16),
        decreases hi as u32 + 1 - x,
    {
        out.push(x as u16);
        x = x + 1;
    }
    assert(out@ =~= base + core_range(lo, hi));
}

/// Reads the item `b[start..end]` and appends its cores to `out`.
fn parse_item(b: &[u8], start: usize, end: usize, out: &mut Vec<u16>) -> (r: Result<
    (),
    CoresError,
>)
    requires
        start <= end <= b@.len(),
    ensures
        match spec_item(b@.subrange(start as int, end as int)) {
            Ok(v) => r is Ok && final(out)@ == old(out)@ + v,
            Err(e) => r == Err::<(), CoresError>(e),
        },
{
    let ghost s = b@.subrange(start as int, end as int);
    if start == end {
        return Err(CoresError::EmptyItem);
    }
    let d = find_byte(b, start, end, 45);
    if d == end {
        match parse_core_id(b, start, end) {
            Ok(c) => {
                out.push(c);
                Ok(())
            },
            Err(e) => Err(e),
        }
    } else {
        proof {
            assert(s.take(d - start) =~= b@.subrange(start as int, d as int));
            assert(s.skip(d - start + 1) =~= b@.subrange(d + 1, end as int));
        }
        let lo = match parse_core_id(b, start, d) {
            Ok(c) => c,
            Err(e) => {
                return Err(e);
            },
        };
        let hi = match parse_core_id(b, d + 1, end) {
            Ok(c) => c,
            Err(e) => {
                return Err(e);
            },
        };
        if lo <= hi {
            push_range(out, lo, hi);
            Ok(())
        } else {
            Err(CoresError::ReversedRange)
        }
    }
}

/// Reads a list of CPU cores such as `0`, `0,2,4` or `0-3,8`.
pub fn parse_cores(text: &str) -> (r: Result<Vec<u16>, CoresError>)
    ensures
        match r {
            Ok(v) => spec_parse_cores(text.spec_bytes()) == Ok::<Seq<u16>, CoresError>(v@),
            Err(e) => spec_parse_cores(text.spec_bytes()) == Err::<Seq<u16>, CoresError>(e),
        },
{
    let b = text.as_bytes();
    let mut out: Vec<u16> = Vec::new();
    let mut i: usize = 0;
    assert(b@.skip(0) =~= b@);
    loop
        invariant
            i <= b@.len(),
            b@ == text.spec_bytes(),
            spec_parse_cores(b@) == prepend_cores(out@, spec_parse_cores(b@.skip(i as int))),
        decreases b@.len() - i,
    {
        let ghost rest = b@.skip(i as int);
        let k = find_byte(b, i, b.len(), 44);
        proof {
            assert(rest =~= b@.subrange(i as int, b@.len() as int));
            assert(rest.take(k - i) =~= b@.subrange(i as int, k as int));
            if k < b@.len() {
                assert(rest.skip(k - i + 1) =~= b@.skip(k + 1));
            }
        }
        let ghost before = out@;
        match parse_item(b, i, k, &mut out) {
            Ok(()) => {},
            Err(e) => {
                return Err(e);
            },
        }
        if k == b.len() {
            assert(out@ =~= before + spec_item(rest.take(k - i))->Ok_0);
            return Ok(out);
        }
        proof {
            let v = spec_item(rest.take(k - i))->Ok_0;
            match spec_parse_cores(b@.skip(k + 1)) {
                Ok(w) => {
                    assert(before + (v + w) =~= (before + v) + w);
                },
                Err(e) => {},
            }
        }
        i = k + 1;
    }
}

/// The text of a core list: each core in decimal, separated by commas.
pub open spec fn spec_format_cores(c: Seq<u16>) -> Seq<char>
    decreases c.len(),
{
    if c.len() == 0 {
        seq![]
    } else if c.len() == 1 {
        decimal(c[0] as nat)
    } else {
        decimal(c[0] as nat) + seq![','] + spec_format_cores(c.drop_first())
    }
}

/// Appends the text of `c[i..]` to `s`.
fn append_cores(s: &mut String, c: &[u16], i: usize)
    requires
        i < c@.len(),
    ensures
        final(s)@ == old(s)@ + spec_format_cores(c@.skip(i as int)),
    decreases c@.len() - i,
{
    let ghost start = s@;
    push_decimal(s, c[i] as u64);
    let ghost head = decimal(c@[i as int] as nat);
    if i + 1 < c.len() {
        proof {
            reveal_strlit(",");
        }
        s.append(",");
        append_cores(s, c, i + 1);
        proof {
            assert(c@.skip(i as int).drop_first() =~= c@.skip(i + 1));
            assert(s@ =~= start + (head + seq![','] + spec_format_cores(c@.skip(i + 1))));
        }
    } else {
        assert(c@.skip(i as int).len() == 1);
    }
}

/// The text of a core list, as the start-up banners show it: `0,2,4`.
pub fn format_cores(cores: &[u16]) -> (r: String)
    ensures
        r@ == spec_format_cores(cores@),
{
    let mut s = String::new();
    if cores.len() > 0 {
        append_cores(&mut s, cores, 0);
        assert(cores@.skip(0) =~= cores@);
    }
    assert(s@ =~= spec_format_cores(cores@));
    s
}

proof fn lemma_decimal_item(n: u16)
    ensures
        ({
            let d = ascii_bytes(decimal(n as nat));
            &&& d.len() > 0
            &&& forall|i: int| 0 <= i < d.len() ==> is_digit(#[trigger] d[i])
            &&& spec_item(d) == Ok::<Seq<u16>, CoresError>(seq![n])
        }),
{
    let d = ascii_bytes(decimal(n as nat));
    lemma_decimal_digits(n as nat);
    assert forall|i: int| 0 <= i < d.len() implies is_digit(#[trigger] d[i]) by {
        assert(d[i] == decimal(n as nat)[i] as u8);
    }
    lemma_first_index_of(d, dash(), d.len() as int);
}

proof fn lemma_format_ascii(c: Seq<u16>)
    ensures
        is_ascii_chars(spec_format_cores(c)),
    decreases c.len(),
{
    if c.len() >= 1 {
        lemma_decimal_digits(c[0] as nat);
    }
    if c.len() > 1 {
        lemma_format_ascii(c.drop_first());
        let f = spec_format_cores(c);
        let d = decimal(c[0] as nat);
        let r = spec_format_cores(c.drop_first());
        assert forall|i: int| 0 <= i < f.len() implies '\0' <= #[trigger] f[i] <= '\u{7f}' by {
            if i < d.len() {
                assert(f[i] == d[i]);
            } else if i > d.len() {
                assert(f[i] == r[i - d.len() - 1]);
            }
        }
    }
}

proof fn lemma_parse_formatted(c: Seq<u16>)
    requires
        c.len() > 0,
    ensures
        spec_parse_cores(ascii_bytes(spec_format_cores(c))) == Ok::<Seq<u16>, CoresError>(c),
    decreases c.len(),
{
    let b = ascii_bytes(spec_format_cores(c));
    let d = ascii_bytes(decimal(c[0] as nat));
    lemma_decimal_item(c[0]);
    if c.len() == 1 {
        lemma_first_index_of(b, comma(), b.len() as int);
        assert(b.take(b.len() as int) =~= d);
        assert(seq![c[0]] =~= c);
    } else {
        let rest = ascii_bytes(spec_format_cores(c.drop_first()));
        assert(b =~= d + seq![44u8] + rest);
        lemma_first_index_of(b, comma(), d.len() as int);
        assert(b.take(d.len() as int) =~= d);
        assert(b.skip(d.len() + 1int) =~= rest);
        lemma_parse_formatted(c.drop_first());
        assert(seq![c[0]] + c.drop_first() =~= c);
    }
}

/// Writing a non-empty core list with `format_cores` and reading the text
/// back with `parse_cores` gives the same list.
pub proof fn lemma_format_then_parse(cores: Seq<u16>)
    requires
        cores.len() > 0,
    ensures
        spec_parse_cores(encode_utf8(spec_format_cores(cores))) == Ok::<Seq<u16>, CoresError>(
            cores,
        ),
{
    let f = spec_format_cores(cores);
    lemma_format_ascii(cores);
    is_ascii_chars_encode_utf8(f);
    assert(encode_utf8(f) =~= ascii_bytes(f));
    lemma_parse_formatted(cores);
}

proof fn lemma_item_nonempty(s: Seq<u8>)
    ensures
        spec_item(s) matches Ok(v) ==> v.len() > 0,
{
}

/// A core list that reads without error names at least one core.
pub proof fn lemma_parsed_cores_nonempty(s: Seq<u8>)
    ensures
        spec_parse_cores(s) matches Ok(v) ==> v.len() > 0,
    decreases s.len(),
{
    let k = first_index_of(s, comma());
    lemma_item_nonempty(s.take(k as int));
    if k < s.len() {
        lemma_parsed_cores_nonempty(s.skip(k + 1int));
    }
}

proof fn lemma_decimal_core_id(n: u16)
    ensures
        ({
            let d = ascii_bytes(decimal(n as nat));
            &&& d.len() > 0
            &&& forall|i: int| 0 <= i < d.len() ==> is_digit(#[trigger] d[i])
            &&& spec_core_id(d) == Ok::<u16, CoresError>(n)
        }),
{
    lemma_decimal_item(n);
    lemma_decimal_digits(n as nat);
}

/// The bytes of the range text `lo-hi`, in decimal.
pub open spec fn range_text(lo: u16, hi: u16) -> Seq<char> {
    decimal(lo as nat) + seq!['-'] + decimal(hi as nat)
}

proof fn lemma_parse_range_bytes(lo: u16, hi: u16)
    ensures
        spec_parse_cores(ascii_bytes(decimal(lo as nat)) + seq![45u8] + ascii_bytes(
            decimal(hi as nat),
        )) == if lo <= hi {
            Ok::<Seq<u16>, CoresError>(core_range(lo, hi))
        } else {
            Err::<Seq<u16>, CoresError>(CoresError::ReversedRange)
        },
{
    let bl = ascii_bytes(decimal(lo as nat));
    let bh = ascii_bytes(decimal(hi as nat));
    lemma_decimal_core_id(lo);
    lemma_decimal_core_id(hi);
    let b = bl + seq![45u8] + bh;
    assert forall|j: int| 0 <= j < b.len() implies b[j] != comma() by {
        if j < bl.len() {
            assert(b[j] == bl[j]);
            assert(is_digit(bl[j]));
        } else if j > bl.len() {
            assert(b[j] == bh[j - bl.len() - 1]);
            assert(is_digit(bh[j - bl.len() - 1]));
        }
    }
    lemma_first_index_of(b, comma(), b.len() as int);
    assert(b.take(b.len() as int) =~= b);
    assert forall|j: int| 0 <= j < bl.len() implies b[j] != dash() by {
        assert(b[j] == bl[j]);
        assert(is_digit(bl[j]));
    }
    lemma_first_index_of(b, dash(), bl.len() as int);
    assert(b.take(bl.len() as int) =~= bl);
    assert(b.skip(bl.len() + 1int) =~= bh);
    assert(spec_item(b) == if lo <= hi {
        Ok::<Seq<u16>, CoresError>(core_range(lo, hi))
    } else {
        Err::<Seq<u16>, CoresError>(CoresError::ReversedRange)
    });
}

proof fn lemma_range_text_bytes(lo: u16, hi: u16)
    ensures
        encode_utf8(range_text(lo, hi)) == ascii_bytes(decimal(lo as nat)) + seq![45u8]
            + ascii_bytes(decimal(hi as nat)),
{
    let dl = decimal(lo as nat);
    let dh = decimal(hi as nat);
    let t = range_text(lo, hi);
    lemma_decimal_digits(lo as nat);
    lemma_decimal_digits(hi as nat);
    assert(is_ascii_chars(t)) by {
        assert forall|i: int| 0 <= i < t.len() implies '\0' <= #[trigger] t[i] <= '\u{7f}' by {
            if i < dl.len() {
                assert(t[i] == dl[i]);
            } else if i > dl.len() {
                assert(t[i] == dh[i - dl.len() - 1]);
            }
        }
    }
    is_ascii_chars_encode_utf8(t);
    assert(encode_utf8(t) =~= ascii_bytes(dl) + seq![45u8] + ascii_bytes(dh));
}

/// A range `lo-hi` reads as every core from `lo` to `hi`, both included, in
/// increasing order; written the other way round it is refused.
pub proof fn lemma_parse_range(lo: u16, hi: u16)
    ensures
        lo <= hi ==> (spec_parse_cores(encode_utf8(range_text(lo, hi))) matches Ok(v) && v.len()
            == hi - lo + 1 && forall|i: int| 0 <= i < v.len() ==> v[i] == lo + i),
        lo > hi ==> spec_parse_cores(encode_utf8(range_text(lo, hi))) == Err::<Seq<u16>, CoresError>(
            CoresError::ReversedRange,
        ),
{
    lemma_range_text_bytes(lo, hi);
    lemma_parse_range_bytes(lo, hi);
}

/// Appending a core to a list appends a comma and the core's decimal to the
/// list's text; a list of one core is that core's decimal.
pub proof fn lemma_format_push(c: Seq<u16>, x: u16)
    ensures
        spec_format_cores(seq![x]) == decimal(x as nat),
        c.len() > 0 ==> spec_format_cores(c.push(x)) == spec_format_cores(c) + seq![',']
            + decimal(x as nat),
    decreases c.len(),
{
    if c.len() == 1 {
        assert(c.push(x).drop_first() =~= seq![x]);
        assert(c.push(x)[0] == c[0]);
        assert(spec_format_cores(c.push(x)) == decimal(c[0] as nat) + seq![','] + spec_format_cores(
            c.push(x).drop_first(),
        ));
    } else if c.len() > 1 {
        assert(c.push(x)[0] == c[0]);
        assert(spec_format_cores(c.push(x)) == decimal(c[0] as nat) + seq![','] + spec_format_cores(
            c.push(x).drop_first(),
        ));
        lemma_format_push(c.drop_first(), x);
        assert(c.push(x).drop_first() =~= c.drop_first().push(x));
        let d = decimal(c[0] as nat);
        let f = spec_format_cores(c.drop_first());
        assert(d + seq![','] + (f + seq![','] + decimal(x as nat)) =~= (d + seq![','] + f) + seq![
            ',',
        ] + decimal(x as nat));
    }
}

/// Facts about the first `c` in `s`: nothing before it is `c`, and it is
/// `c` unless it is the end.
proof fn lemma_first_index_props(s: Seq<u8>, c: u8)
    ensures
        first_index_of(s, c) <= s.len(),
        forall|j: int| 0 <= j < first_index_of(s, c) ==> s[j] != c,
        first_index_of(s, c) < s.len() ==> s[first_index_of(s, c) as int] == c,
    decreases s.len(),
{
    if s.len() > 0 && s[0] != c {
        lemma_first_index_props(s.drop_first(), c);
        assert forall|j: int| 0 <= j < first_index_of(s, c) implies s[j] != c by {
            if j > 0 {
                assert(s[j] == s.drop_first()[j - 1]);
            }
        }
    }
}

/// The bytes a core list may hold: digits, commas and dashes.
pub open spec fn list_byte(b: u8) -> bool {
    is_digit(b) || b == comma() || b == dash()
}

proof fn lemma_item_bytes(t: Seq<u8>)
    ensures
        spec_item(t) is Ok ==> forall|i: int| 0 <= i < t.len() ==> #[trigger] is_digit(t[i])
            || t[i] == dash(),
{
    if spec_item(t) is Ok {
        let d = first_index_of(t, dash());
        lemma_first_index_props(t, dash());
        if d < t.len() {
            let lo = t.take(d as int);
            let hi = t.skip(d + 1int);
            assert forall|i: int| 0 <= i < t.len() implies #[trigger] is_digit(t[i]) || t[i]
                == dash() by {
                if i < d {
                    assert(t[i] == lo[i]);
                    assert(is_digit(lo[i]));
                } else if i > d {
                    assert(t[i] == hi[i - d - 1]);
                    assert(is_digit(hi[i - d - 1]));
                }
            }
        }
    }
}

/// A text that reads as a core list holds nothing but digits, commas and
/// dashes: spaces, signs and any other byte make it an error.
pub proof fn lemma_parsed_text_bytes(s: Seq<u8>)
    ensures
        spec_parse_cores(s) is Ok ==> forall|i: int| 0 <= i < s.len() ==> #[trigger] list_byte(
            s[i],
        ),
    decreases s.len(),
{
    if spec_parse_cores(s) is Ok {
        let k = first_index_of(s, comma());
        lemma_first_index_props(s, comma());
        let head = s.take(k as int);
        lemma_item_bytes(head);
        if k < s.len() {
            let rest = s.skip(k + 1int);
            lemma_parsed_text_bytes(rest);
            assert forall|i: int| 0 <= i < s.len() implies #[trigger] list_byte(s[i]) by {
                if i < k {
                    assert(s[i] == head[i]);
                    assert(is_digit(head[i]) || head[i] == dash());
                } else if i > k {
                    assert(s[i] == rest[i - k - 1]);
                    assert(list_byte(rest[i - k - 1]));
                }
            }
        } else {
            assert forall|i: int| 0 <= i < s.len() implies #[trigger] list_byte(s[i]) by {
                assert(s[i] == head[i]);
                assert(is_digit(head[i]) || head[i] == dash());
            }
        }
    }
}

/// An empty text is refused, and so is a single number above 65535.
pub proof fn lemma_parse_refusals(n: nat)
    ensures
        spec_parse_cores(Seq::<u8>::empty()) == Err::<Seq<u16>, CoresError>(
            CoresError::EmptyItem,
        ),
        n > u16::MAX ==> spec_parse_cores(encode_utf8(decimal(n))) == Err::<Seq<u16>, CoresError>(
            CoresError::OutOfRange,
        ),
{
    assert(Seq::<u8>::empty().take(0) =~= Seq::<u8>::empty());
    let d = decimal(n);
    lemma_decimal_digits(n);
    assert(is_ascii_chars(d));
    is_ascii_chars_encode_utf8(d);
    let b = ascii_bytes(d);
    assert(encode_utf8(d) =~= b);
    assert forall|j: int| 0 <= j < b.len() implies is_digit(#[trigger] b[j]) by {
        assert(b[j] == d[j] as u8);
    }
    lemma_first_index_of(b, comma(), b.len() as int);
    lemma_first_index_of(b, dash(), b.len() as int);
    assert(b.take(b.len() as int) =~= b);
}

} // verus!
