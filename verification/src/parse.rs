//! Verified byte-level parsing primitives shared by the response parsers:
//! locating bytes, splitting lines, trimming whitespace, stripping quotes,
//! reading decimal integers and validating text.
use vstd::prelude::*;

use crate::{CR, LF};

verus! {

/// The ASCII double quote, which wraps text fields on the wire.
pub const QUOTE: u8 = 34;

/// True for the ASCII whitespace bytes that trimming removes.
pub open spec fn is_ws(b: u8) -> bool {
    b == 32 || b == 9 || b == LF || b == CR || b == 11 || b == 12
}

/// The index of the first occurrence of `b` in `s`, if any.
pub open spec fn find_first(s: Seq<u8>, b: u8) -> Option<int>
    decreases s.len(),
{
    if s.len() == 0 {
        None
    } else if s[0] == b {
        Some(0int)
    } else {
        match find_first(s.skip(1), b) {
            None => None,
            Some(k) => Some(k + 1),
        }
    }
}

/// `find_first` returns the smallest index holding `b`, and `None` exactly
/// when `b` does not occur.
pub proof fn lemma_find_first(s: Seq<u8>, b: u8)
    ensures
        match find_first(s, b) {
            None => forall|i: int| 0 <= i < s.len() ==> s[i] != b,
            Some(k) => 0 <= k < s.len() && s[k] == b && (forall|i: int| 0 <= i < k ==> s[i] != b),
        },
    decreases s.len(),
{
    if s.len() > 0 && s[0] != b {
        let t = s.skip(1);
        lemma_find_first(t, b);
        match find_first(t, b) {
            None => {
                assert forall|i: int| 0 <= i < s.len() implies s[i] != b by {
                    if i > 0 {
                        assert(t[i - 1] == s[i]);
                    }
                }
            },
            Some(k) => {
                assert(s[k + 1] == t[k]);
                assert forall|i: int| 0 <= i < k + 1 implies s[i] != b by {
                    if i > 0 {
                        assert(t[i - 1] == s[i]);
                    }
                }
            },
        }
    }
}

/// Finds the first occurrence of `b` in `s`.
pub fn find_byte(s: &[u8], b: u8) -> (r: Option<usize>)
    ensures
        match r {
            Some(k) => find_first(s@, b) == Some(k as int),
            None => find_first(s@, b) is None,
        },
{
    let mut i: usize = 0;
    while i < s.len()
        invariant
            i <= s@.len(),
            forall|j: int| 0 <= j < i ==> s@[j] != b,
        decreases s@.len() - i,
    {
        if s[i] == b {
            proof {
                lemma_find_first(s@, b);
            }
            return Some(i);
        }
        i = i + 1;
    }
    proof {
        lemma_find_first(s@, b);
    }
    None
}

/// `s` with leading and trailing ASCII whitespace removed.
pub open spec fn trim(s: Seq<u8>) -> Seq<u8>
    decreases s.len(),
{
    if s.len() == 0 {
        s
    } else if is_ws(s[0]) {
        trim(s.skip(1))
    } else if is_ws(s[s.len() - 1]) {
        trim(s.take(s.len() - 1))
    } else {
        s
    }
}

proof fn lemma_trim_all_ws(s: Seq<u8>)
    requires
        forall|i: int| 0 <= i < s.len() ==> is_ws(s[i]),
    ensures
        trim(s) == Seq::<u8>::empty(),
    decreases s.len(),
{
    if s.len() > 0 {
        assert(forall|i: int| 0 <= i < s.skip(1).len() ==> s.skip(1)[i] == s[i + 1]);
        lemma_trim_all_ws(s.skip(1));
    } else {
        assert(s =~= Seq::<u8>::empty());
    }
}

proof fn lemma_trim_subrange(s: Seq<u8>, lo: int, hi: int)
    requires
        0 <= lo < hi <= s.len(),
        forall|i: int| 0 <= i < lo ==> is_ws(s[i]),
        forall|i: int| hi <= i < s.len() ==> is_ws(s[i]),
        !is_ws(s[lo]),
        !is_ws(s[hi - 1]),
    ensures
        trim(s) == s.subrange(lo, hi),
    decreases s.len(),
{
    if lo > 0 {
        let t = s.skip(1);
        assert(forall|i: int| 0 <= i < t.len() ==> t[i] == s[i + 1]);
        lemma_trim_subrange(t, lo - 1, hi - 1);
        assert(t.subrange(lo - 1, hi - 1) =~= s.subrange(lo, hi));
    } else if hi < s.len() {
        let t = s.take(s.len() - 1);
        assert(forall|i: int| 0 <= i < t.len() ==> t[i] == s[i]);
        lemma_trim_subrange(t, lo, hi);
        assert(t.subrange(lo, hi) =~= s.subrange(lo, hi));
    } else {
        assert(s.subrange(0, s.len() as int) =~= s);
    }
}

/// Removes leading and trailing ASCII whitespace.
pub fn trim_bytes<'a>(s: &'a [u8]) -> (r: &'a [u8])
    ensures
        r@ == trim(s@),
{
    let mut lo: usize = 0;
    while lo < s.len() && is_ws_byte(s[lo])
        invariant
            lo <= s@.len(),
            forall|i: int| 0 <= i < lo ==> is_ws(s@[i]),
        decreases s@.len() - lo,
    {
        lo = lo + 1;
    }
    if lo == s.len() {
        proof {
            lemma_trim_all_ws(s@);
        }
        let r = vstd::slice::slice_subrange(s, 0, 0);
        proof {
            assert(r@ =~= Seq::<u8>::empty());
        }
        return r;
    }
    let mut hi: usize = s.len();
    while hi > lo + 1 && is_ws_byte(s[hi - 1])
        invariant
            lo < hi <= s@.len(),
            forall|i: int| hi <= i < s@.len() ==> is_ws(s@[i]),
        decreases hi,
    {
        hi = hi - 1;
    }
    proof {
        lemma_trim_subrange(s@, lo as int, hi as int);
    }
    vstd::slice::slice_subrange(s, lo, hi)
}

/// Runtime counterpart of [`is_ws`].
fn is_ws_byte(b: u8) -> (r: bool)
    ensures
        r == is_ws(b),
{
    b == 32 || b == 9 || b == LF || b == CR || b == 11 || b == 12
}

/// `s` with one matching pair of surrounding quotes removed, if present.
pub open spec fn unquote(s: Seq<u8>) -> Seq<u8> {
    if s.len() >= 2 && s[0] == QUOTE && s[s.len() - 1] == QUOTE {
        s.subrange(1, s.len() - 1)
    } else {
        s
    }
}

/// Strips one matching pair of surrounding quotes, if present.
pub fn unquote_bytes<'a>(s: &'a [u8]) -> (r: &'a [u8])
    ensures
        r@ == unquote(s@),
{
    if s.len() >= 2 && s[0] == QUOTE && s[s.len() - 1] == QUOTE {
        vstd::slice::slice_subrange(s, 1, s.len() - 1)
    } else {
        s
    }
}

/// The ASCII plus sign, an accepted leading sign for decimal numbers.
pub const PLUS: u8 = 43;

/// The ASCII minus sign, the leading sign of negative decimal numbers.
pub const MINUS: u8 = 45;

/// True for the ASCII decimal digits.
pub open spec fn is_digit(b: u8) -> bool {
    48 <= b <= 57
}

/// True when every byte of `s` is a decimal digit.
pub open spec fn all_digits(s: Seq<u8>) -> bool {
    forall|i: int| 0 <= i < s.len() ==> is_digit(s[i])
}

/// The value of `s` read as a big-endian decimal numeral.
pub open spec fn digits_value(s: Seq<u8>) -> int
    decreases s.len(),
{
    if s.len() == 0 {
        0
    } else {
        digits_value(s.drop_last()) * 10 + (s.last() - 48)
    }
}

proof fn lemma_digits_value_nonneg(s: Seq<u8>)
    requires
        all_digits(s),
    ensures
        digits_value(s) >= 0,
    decreases s.len(),
{
    if s.len() > 0 {
        assert(forall|i: int| 0 <= i < s.drop_last().len() ==> s.drop_last()[i] == s[i]);
        lemma_digits_value_nonneg(s.drop_last());
    }
}

proof fn lemma_digits_value_mono(s: Seq<u8>, k: int)
    requires
        all_digits(s),
        0 <= k <= s.len(),
    ensures
        digits_value(s) >= digits_value(s.take(k)),
    decreases s.len(),
{
    if k == s.len() {
        assert(s.take(k) =~= s);
    } else {
        let t = s.drop_last();
        assert(forall|i: int| 0 <= i < t.len() ==> t[i] == s[i]);
        lemma_digits_value_mono(t, k);
        assert(t.take(k) =~= s.take(k));
        lemma_digits_value_nonneg(t);
    }
}

/// What reading `s` as an unsigned byte yields: the digits' value, with one
/// optional leading plus sign, provided it fits.
pub open spec fn parse_u8_spec(s: Seq<u8>) -> Option<u8> {
    let d = if s.len() > 0 && s[0] == PLUS {
        s.skip(1)
    } else {
        s
    };
    if d.len() > 0 && all_digits(d) && digits_value(d) <= 255 {
        Some(digits_value(d) as u8)
    } else {
        None
    }
}

/// What reading `s` as a signed 16-bit integer yields: an optional sign
/// followed by digits, provided the value fits.
pub open spec fn parse_i16_spec(s: Seq<u8>) -> Option<i16> {
    let neg = s.len() > 0 && s[0] == MINUS;
    let d = if s.len() > 0 && (s[0] == PLUS || s[0] == MINUS) {
        s.skip(1)
    } else {
        s
    };
    let bound: int = if neg {
        32768
    } else {
        32767
    };
    if d.len() > 0 && all_digits(d) && digits_value(d) <= bound {
        if neg {
            Some((-digits_value(d)) as i16)
        } else {
            Some(digits_value(d) as i16)
        }
    } else {
        None
    }
}

/// Reads `s` as an unsigned byte.
pub fn parse_u8(s: &[u8]) -> (r: Option<u8>)
    ensures
        r == parse_u8_spec(s@),
{
    let off: usize = if s.len() > 0 && s[0] == PLUS {
        1
    } else {
        0
    };
    let ghost d = s@.skip(off as int);
    proof {
        assert(s@.skip(0int) =~= s@);
    }
    if s.len() == off {
        assert(d.len() == 0);
        return None;
    }
    let mut acc: u32 = 0;
    let mut i: usize = off;
    while i < s.len()
        invariant
            off <= 1,
            off <= i <= s@.len(),
            off < s@.len(),
            d == s@.skip(off as int),
            off == 0 ==> d == s@,
            off == 1 ==> s@.len() > 0 && s@[0] == PLUS,
            off == 0 ==> !(s@.len() > 0 && s@[0] == PLUS),
            acc == digits_value(d.take(i - off)),
            acc <= 255,
            forall|j: int| 0 <= j < i - off ==> is_digit(d[j]),
        decreases s@.len() - i,
    {
        let b = s[i];
        proof {
            assert(d[i - off] == s@[i as int]);
        }
        if !(48 <= b && b <= 57) {
            assert(!is_digit(d[i - off]));
            assert(!all_digits(d));
            return None;
        }
        let acc2 = acc * 10 + (b - 48) as u32;
        proof {
            let k = i - off;
            assert(d.take(k + 1).drop_last() =~= d.take(k));
            assert(d.take(k + 1).last() == d[k]);
            assert(digits_value(d.take(k + 1)) == acc * 10 + (b - 48));
        }
        if acc2 > 255 {
            proof {
                if all_digits(d) {
                    lemma_digits_value_mono(d, i + 1 - off);
                }
            }
            return None;
        }
        acc = acc2;
        i = i + 1;
    }
    proof {
        assert(d.take(d.len() as int) =~= d);
    }
    Some(acc as u8)
}

/// Reads `s` as a signed 16-bit integer.
pub fn parse_i16(s: &[u8]) -> (r: Option<i16>)
    ensures
        r == parse_i16_spec(s@),
{
    let neg = s.len() > 0 && s[0] == MINUS;
    let off: usize = if s.len() > 0 && (s[0] == PLUS || s[0] == MINUS) {
        1
    } else {
        0
    };
    let bound: u32 = if neg {
        32768
    } else {
        32767
    };
    let ghost d = s@.skip(off as int);
    proof {
        assert(s@.skip(0int) =~= s@);
    }
    if s.len() == off {
        assert(d.len() == 0);
        return None;
    }
    let mut acc: u32 = 0;
    let mut i: usize = off;
    while i < s.len()
        invariant
            off <= 1,
            off <= i <= s@.len(),
            off < s@.len(),
            d == s@.skip(off as int),
            off == 0 ==> d == s@,
            neg == (s@.len() > 0 && s@[0] == MINUS),
            bound == if neg { 32768int } else { 32767int },
            off == 1 ==> s@.len() > 0 && (s@[0] == PLUS || s@[0] == MINUS),
            off == 0 ==> !(s@.len() > 0 && (s@[0] == PLUS || s@[0] == MINUS)),
            acc == digits_value(d.take(i - off)),
            acc <= bound,
            forall|j: int| 0 <= j < i - off ==> is_digit(d[j]),
        decreases s@.len() - i,
    {
        let b = s[i];
        proof {
            assert(d[i - off] == s@[i as int]);
        }
        if !(48 <= b && b <= 57) {
            assert(!is_digit(d[i - off]));
            return None;
        }
        let acc2 = acc * 10 + (b - 48) as u32;
        proof {
            let k = i - off;
            assert(d.take(k + 1).drop_last() =~= d.take(k));
            assert(d.take(k + 1).last() == d[k]);
            assert(digits_value(d.take(k + 1)) == acc * 10 + (b - 48));
        }
        if acc2 > bound {
            proof {
                if all_digits(d) {
                    lemma_digits_value_mono(d, i + 1 - off);
                }
            }
            return None;
        }
        acc = acc2;
        i = i + 1;
    }
    proof {
        assert(d.take(d.len() as int) =~= d);
    }
    if neg {
        let v = -(acc as i32);
        Some(v as i16)
    } else {
        Some(acc as i16)
    }
}

/// The index of the first occurrence of `find` outside quotes, scanning `s`
/// with `inside` as the starting quote state. A quote byte toggles the state
/// before the byte is compared, as the wire format nests delimiters only
/// inside quoted text.
pub open spec fn delim_pos(s: Seq<u8>, find: u8, inside: bool) -> Option<int>
    decreases s.len(),
{
    if s.len() == 0 {
        None
    } else {
        let inside2 = if s[0] == QUOTE {
            !inside
        } else {
            inside
        };
        if s[0] == find && !inside2 {
            Some(0int)
        } else {
            match delim_pos(s.skip(1), find, inside2) {
                None => None,
                Some(k) => Some(k + 1),
            }
        }
    }
}

/// Splitting `s` at the first unquoted occurrence of `find`: the field before
/// it, unquoted, and the remainder after it.
pub open spec fn split_field(s: Seq<u8>, find: u8) -> Option<(Seq<u8>, Seq<u8>)> {
    match delim_pos(s, find, false) {
        None => None,
        Some(k) => Some((unquote(s.take(k)), s.skip(k + 1))),
    }
}

/// Removes one trailing carriage return, as line splitting does before a line
/// feed.
pub open spec fn chomp_cr(line: Seq<u8>) -> Seq<u8> {
    if line.len() > 0 && line.last() == CR {
        line.drop_last()
    } else {
        line
    }
}

/// The lines of `s`: split at each line feed, with one carriage return
/// stripped from the end of each terminated line; a final unterminated
/// segment is kept as written, and a trailing terminator adds no empty line.
pub open spec fn split_lines(s: Seq<u8>) -> Seq<Seq<u8>>
    decreases s.len(),
    via split_lines_decreases
{
    if s.len() == 0 {
        Seq::empty()
    } else {
        match find_first(s, LF) {
            None => seq![s],
            Some(k) => seq![chomp_cr(s.take(k))] + split_lines(s.skip(k + 1)),
        }
    }
}

#[via_fn]
proof fn split_lines_decreases(s: Seq<u8>) {
    if s.len() != 0 {
        lemma_find_first(s, LF);
    }
}

/// Splits `s` into its lines, each an owned buffer.
pub fn lines_of(s: &[u8]) -> (r: Vec<Vec<u8>>)
    ensures
        r.deep_view() == split_lines(s@),
{
    let mut out: Vec<Vec<u8>> = Vec::new();
    let mut pos: usize = 0;
    proof {
        assert(s@.skip(0int) =~= s@);
        assert(out.deep_view() + split_lines(s@) =~= split_lines(s@));
    }
    while pos < s.len()
        invariant
            pos <= s@.len(),
            split_lines(s@) == out.deep_view() + split_lines(s@.skip(pos as int)),
        decreases s@.len() - pos,
    {
        let ghost rest = s@.skip(pos as int);
        let tail = vstd::slice::slice_subrange(s, pos, s.len());
        proof {
            assert(tail@ =~= rest);
        }
        match find_byte(tail, LF) {
            None => {
                let line = vstd::slice::slice_to_vec(tail);
                proof {
                    assert(split_lines(rest) =~= seq![rest]);
                }
                push_line(&mut out, line, Ghost(split_lines(s@)), Ghost(Seq::empty()));
                pos = s.len();
                proof {
                    assert(split_lines(s@.skip(pos as int)) =~= Seq::<Seq<u8>>::empty());
                }
            },
            Some(k) => {
                proof {
                    lemma_find_first(rest, LF);
                }
                let end = pos + k;
                let line_end = if k > 0 && s[end - 1] == CR {
                    end - 1
                } else {
                    end
                };
                let line = vstd::slice::slice_to_vec(
                    vstd::slice::slice_subrange(s, pos, line_end),
                );
                proof {
                    assert(rest.take(k as int) =~= s@.subrange(pos as int, end as int));
                    assert(chomp_cr(rest.take(k as int)) =~= s@.subrange(
                        pos as int,
                        line_end as int,
                    ));
                    assert(rest.skip(k + 1) =~= s@.skip(end + 1));
                }
                push_line(
                    &mut out,
                    line,
                    Ghost(split_lines(s@)),
                    Ghost(split_lines(s@.skip(end + 1))),
                );
                pos = end + 1;
            },
        }
    }
    proof {
        assert(split_lines(s@.skip(pos as int)) =~= Seq::<Seq<u8>>::empty());
        assert(out.deep_view() + Seq::<Seq<u8>>::empty() =~= out.deep_view());
    }
    out
}

/// Appends one line to the collected prefix of a line split, keeping the
/// bookkeeping that the whole split is the collected lines plus the rest.
fn push_line(
    out: &mut Vec<Vec<u8>>,
    line: Vec<u8>,
    Ghost(whole): Ghost<Seq<Seq<u8>>>,
    Ghost(rest): Ghost<Seq<Seq<u8>>>,
)
    requires
        whole == old(out).deep_view() + (seq![line@] + rest),
    ensures
        whole == final(out).deep_view() + rest,
        final(out)@ == old(out)@.push(line),
{
    let ghost before = out.deep_view();
    out.push(line);
    proof {
        assert(out.deep_view() =~= before.push(line@)) by {
            assert forall|i: int| 0 <= i < out@.len() implies out.deep_view()[i] == before.push(
                line@,
            )[i] by {
                if i < before.len() {
                    assert(out@[i] == old(out)@[i]);
                } else {
                    assert(out@[i] == line);
                    assert(line.deep_view() =~= line@);
                }
            }
        }
        assert(before.push(line@) + rest =~= before + (seq![line@] + rest));
    }
}

/// Compares two byte slices for equality.
pub fn bytes_eq(a: &[u8], b: &[u8]) -> (r: bool)
    ensures
        r == (a@ == b@),
{
    if a.len() != b.len() {
        return false;
    }
    let mut i: usize = 0;
    while i < a.len()
        invariant
            a@.len() == b@.len(),
            i <= a@.len(),
            forall|j: int| 0 <= j < i ==> a@[j] == b@[j],
        decreases a@.len() - i,
    {
        if a[i] != b[i] {
            return false;
        }
        i = i + 1;
    }
    proof {
        assert(a@ =~= b@);
    }
    true
}

/// Appends all of `s` to `out`.
pub fn extend_bytes(out: &mut Vec<u8>, s: &[u8])
    ensures
        final(out)@ == old(out)@ + s@,
{
    let mut i: usize = 0;
    proof {
        assert(out@ + s@.take(0int) =~= out@);
    }
    while i < s.len()
        invariant
            i <= s@.len(),
            out@ == old(out)@ + s@.take(i as int),
        decreases s@.len() - i,
    {
        out.push(s[i]);
        proof {
            assert(old(out)@ + s@.take(i + 1) =~= (old(out)@ + s@.take(i as int)).push(
                s@[i as int],
            ));
        }
        i = i + 1;
    }
    proof {
        assert(s@.take(s@.len() as int) =~= s@);
    }
}

use vstd::utf8::{valid_utf8, decode_utf8};

/// Relies on `str::from_utf8`: it succeeds exactly on the inputs that are
/// valid UTF-8, and then returns the string made of those bytes.
#[verifier::external_body]
fn utf8_to_str(v: &[u8]) -> (r: Option<&str>)
    ensures
        r is Some <==> valid_utf8(v@),
        r is Some ==> r.unwrap()@ == decode_utf8(v@),
{
    core::str::from_utf8(v).ok()
}

/// Validates `v` as UTF-8 text and copies it into an owned string.
pub fn utf8_to_string(v: &[u8]) -> (r: Option<String>)
    ensures
        r is Some <==> valid_utf8(v@),
        r is Some ==> r.unwrap()@ == decode_utf8(v@),
{
    match utf8_to_str(v) {
        Some(s) => Some(s.to_owned()),
        None => None,
    }
}

} // verus!
