//! Parsing of the diagnostic text that one cleanup invocation prints, and
//! the delta type that accumulates what was removed.
//!
//! The expected line has the shape `Removed <count> files` optionally
//! followed by `, <size> total`, where `<count>` is a run of decimal digits
//! and `<size>` is a human-readable byte size such as `3.4MB`. Only the
//! first occurrence in the text counts.

use vstd::prelude::*;
use vstd::slice::{slice_index_get, slice_subrange};

verus! {

/// Files and bytes removed by one successful cleanup invocation.
#[derive(Clone, Copy, Debug, PartialEq, Eq, Structural)]
pub struct CleanOutput {
    pub files_removed: u32,
    pub bytes_removed: u64,
}

// ---------------------------------------------------------------------------
// Byte classes and literal markers of the expected pattern
// ---------------------------------------------------------------------------

/// An ASCII decimal digit.
pub open spec fn is_digit_byte(b: u8) -> bool {
    48 <= b && b <= 57
}

/// A byte allowed in the numeric part of a size field: a digit or a dot.
pub open spec fn is_size_byte(b: u8) -> bool {
    is_digit_byte(b) || b == 46
}

/// An ASCII letter, as used by a size unit suffix.
pub open spec fn is_letter_byte(b: u8) -> bool {
    (65 <= b && b <= 90) || (97 <= b && b <= 122)
}

/// The bytes of `"Removed "`.
pub open spec fn removed_marker() -> Seq<u8> {
    seq![82u8, 101u8, 109u8, 111u8, 118u8, 101u8, 100u8, 32u8]
}

/// The bytes of `" files"`.
pub open spec fn files_marker() -> Seq<u8> {
    seq![32u8, 102u8, 105u8, 108u8, 101u8, 115u8]
}

/// The bytes of `", "`.
pub open spec fn comma_marker() -> Seq<u8> {
    seq![44u8, 32u8]
}

/// The bytes of `" total"`.
pub open spec fn total_marker() -> Seq<u8> {
    seq![32u8, 116u8, 111u8, 116u8, 97u8, 108u8]
}

/// `pat` occurs in `t` starting at position `i`.
pub open spec fn has_at(t: Seq<u8>, i: int, pat: Seq<u8>) -> bool {
    &&& 0 <= i
    &&& i + pat.len() <= t.len()
    &&& t.subrange(i, i + pat.len() as int) == pat
}

/// The end of the maximal run of bytes satisfying `p` that starts at `j`.
pub open spec fn run_end(t: Seq<u8>, j: int, p: spec_fn(u8) -> bool) -> int
    decreases t.len() - j,
{
    if 0 <= j && j < t.len() && p(t[j]) {
        run_end(t, j + 1, p)
    } else {
        j
    }
}

/// The end of the maximal digit run starting at `j`.
pub open spec fn digit_end(t: Seq<u8>, j: int) -> int {
    run_end(t, j, |b: u8| is_digit_byte(b))
}

/// The end of the maximal run of size bytes starting at `j`.
pub open spec fn size_end(t: Seq<u8>, j: int) -> int {
    run_end(t, j, |b: u8| is_size_byte(b))
}

/// The end of the maximal letter run starting at `j`.
pub open spec fn letter_end(t: Seq<u8>, j: int) -> int {
    run_end(t, j, |b: u8| is_letter_byte(b))
}

/// Every byte of a maximal digit run is a digit.
proof fn lemma_digit_run(t: Seq<u8>, j: int)
    requires
        0 <= j <= t.len(),
    ensures
        j <= digit_end(t, j) <= t.len(),
        forall|k: int| j <= k < digit_end(t, j) ==> is_digit_byte(#[trigger] t[k]),
    decreases t.len() - j,
{
    if j < t.len() && is_digit_byte(t[j]) {
        lemma_digit_run(t, j + 1);
        assert(digit_end(t, j) == digit_end(t, j + 1));
    }
}

// ---------------------------------------------------------------------------
// The pattern itself
// ---------------------------------------------------------------------------

/// The required part of the pattern occurs at position `i`: the marker
/// `Removed `, at least one digit, then the marker ` files` right after
/// the maximal digit run.
pub open spec fn match_at(t: Seq<u8>, i: int) -> bool {
    &&& has_at(t, i, removed_marker())
    &&& digit_end(t, i + 8) > i + 8
    &&& has_at(t, digit_end(t, i + 8), files_marker())
}

/// The position of the first match at or after `i`, if any.
pub open spec fn first_match_from(t: Seq<u8>, i: int) -> Option<int>
    decreases t.len() - i,
{
    if i >= t.len() {
        None
    } else if match_at(t, i) {
        Some(i)
    } else {
        first_match_from(t, i + 1)
    }
}

/// The optional size field directly after position `p` (the end of the
/// required part): `, ` then a nonempty run of size bytes, a nonempty run
/// of letters, and ` total`. The capture covers number and unit together.
pub open spec fn size_field(t: Seq<u8>, p: int) -> Option<Seq<u8>> {
    let s = p + 2;
    let se = size_end(t, s);
    let ae = letter_end(t, se);
    if has_at(t, p, comma_marker()) && se > s && ae > se && has_at(t, ae, total_marker()) {
        Some(t.subrange(s, ae))
    } else {
        None
    }
}

/// The numeric value of a run of decimal digit bytes.
pub open spec fn digits_value(s: Seq<u8>) -> int
    decreases s.len(),
{
    if s.len() == 0 {
        0
    } else {
        digits_value(s.drop_last()) * 10 + (s.last() - 48)
    }
}

/// What byte_unit reads out of a size string such as `3.4MB`; `None` where
/// the string is not a size it accepts.
pub uninterp spec fn parsed_byte_count(s: Seq<u8>) -> Option<u64>;

/// The byte count contributed by the size field after position `p`: the
/// value of the field where it is present and readable, zero otherwise.
pub open spec fn size_field_value(t: Seq<u8>, p: int) -> u64 {
    match size_field(t, p) {
        Some(cap) => match parsed_byte_count(cap) {
            Some(b) => b,
            None => 0,
        },
        None => 0,
    }
}

/// The delta encoded in a diagnostic text: `None` where the pattern is
/// absent or the count does not fit in 32 bits; otherwise the count of the
/// first match, with the byte value of its size field (zero if absent or
/// unreadable).
pub open spec fn parsed_delta(t: Seq<u8>) -> Option<CleanOutput> {
    match first_match_from(t, 0) {
        None => None,
        Some(i) => {
            let de = digit_end(t, i + 8);
            let v = digits_value(t.subrange(i + 8, de));
            if v > u32::MAX {
                None
            } else {
                Some(
                    CleanOutput {
                        files_removed: v as u32,
                        bytes_removed: size_field_value(t, de + 6),
                    },
                )
            }
        },
    }
}

// ---------------------------------------------------------------------------
// Trusted boundary
// ---------------------------------------------------------------------------

/// Relies on byte_unit::Byte::parse_str (and Byte::as_u64) to read a
/// human-readable size string; the result depends on the bytes alone.
#[verifier::external_body]
fn parse_byte_size(s: &[u8]) -> (r: Option<u64>)
    ensures
        r == parsed_byte_count(s@),
{
    match core::str::from_utf8(s).ok().and_then(|t| byte_unit::Byte::parse_str(t, false).ok()) {
        Some(b) => Some(b.as_u64()),
        None => None,
    }
}

// ---------------------------------------------------------------------------
// Executable matching
// ---------------------------------------------------------------------------

fn marker_removed() -> (r: Vec<u8>)
    ensures
        r@ == removed_marker(),
{
    let mut v: Vec<u8> = Vec::new();
    v.push(82u8);
    v.push(101u8);
    v.push(109u8);
    v.push(111u8);
    v.push(118u8);
    v.push(101u8);
    v.push(100u8);
    v.push(32u8);
    proof {
        assert(v@ =~= removed_marker());
    }
    v
}

fn marker_files() -> (r: Vec<u8>)
    ensures
        r@ == files_marker(),
{
    let mut v: Vec<u8> = Vec::new();
    v.push(32u8);
    v.push(102u8);
    v.push(105u8);
    v.push(108u8);
    v.push(101u8);
    v.push(115u8);
    proof {
        assert(v@ =~= files_marker());
    }
    v
}

fn marker_comma() -> (r: Vec<u8>)
    ensures
        r@ == comma_marker(),
{
    let mut v: Vec<u8> = Vec::new();
    v.push(44u8);
    v.push(32u8);
    proof {
        assert(v@ =~= comma_marker());
    }
    v
}

fn marker_total() -> (r: Vec<u8>)
    ensures
        r@ == total_marker(),
{
    let mut v: Vec<u8> = Vec::new();
    v.push(32u8);
    v.push(116u8);
    v.push(111u8);
    v.push(116u8);
    v.push(97u8);
    v.push(108u8);
    proof {
        assert(v@ =~= total_marker());
    }
    v
}

fn starts_with_at(t: &[u8], i: usize, pat: &Vec<u8>) -> (r: bool)
    ensures
        r == has_at(t@, i as int, pat@),
{
    let n = t.len();
    if pat.len() > n || i > n - pat.len() {
        return false;
    }
    let mut k: usize = 0;
    while k < pat.len()
        invariant
            n == t@.len(),
            0 <= k <= pat@.len(),
            i + pat@.len() <= n,
            forall|m: int| 0 <= m < k ==> t@[i + m] == pat@[m],
        decreases pat@.len() - k,
    {
        if *slice_index_get(t, i + k) != pat[k] {
            proof {
                if has_at(t@, i as int, pat@) {
                    assert(t@.subrange(i as int, i + pat@.len() as int)[k as int] == t@[i + k]);
                }
            }
            return false;
        }
        k += 1;
    }
    proof {
        assert(t@.subrange(i as int, i + pat@.len() as int) =~= pat@);
    }
    true
}

fn scan_digits(t: &[u8], j: usize) -> (r: usize)
    requires
        j <= t@.len(),
    ensures
        r == digit_end(t@, j as int),
        j <= r <= t@.len(),
{
    let mut k: usize = j;
    loop
        invariant
            j <= k <= t@.len(),
            digit_end(t@, j as int) == digit_end(t@, k as int),
        ensures
            j <= k <= t@.len(),
            digit_end(t@, j as int) == k as int,
        decreases t@.len() - k,
    {
        if k >= t.len() {
            break;
        }
        let b = *slice_index_get(t, k);
        if !(48 <= b && b <= 57) {
            break;
        }
        k += 1;
    }
    k
}

fn scan_size_bytes(t: &[u8], j: usize) -> (r: usize)
    requires
        j <= t@.len(),
    ensures
        r == size_end(t@, j as int),
        j <= r <= t@.len(),
{
    let mut k: usize = j;
    loop
        invariant
            j <= k <= t@.len(),
            size_end(t@, j as int) == size_end(t@, k as int),
        ensures
            j <= k <= t@.len(),
            size_end(t@, j as int) == k as int,
        decreases t@.len() - k,
    {
        if k >= t.len() {
            break;
        }
        let b = *slice_index_get(t, k);
        if !((48 <= b && b <= 57) || b == 46) {
            break;
        }
        k += 1;
    }
    k
}

fn scan_letters(t: &[u8], j: usize) -> (r: usize)
    requires
        j <= t@.len(),
    ensures
        r == letter_end(t@, j as int),
        j <= r <= t@.len(),
{
    let mut k: usize = j;
    loop
        invariant
            j <= k <= t@.len(),
            letter_end(t@, j as int) == letter_end(t@, k as int),
        ensures
            j <= k <= t@.len(),
            letter_end(t@, j as int) == k as int,
        decreases t@.len() - k,
    {
        if k >= t.len() {
            break;
        }
        let b = *slice_index_get(t, k);
        if !((65 <= b && b <= 90) || (97 <= b && b <= 122)) {
            break;
        }
        k += 1;
    }
    k
}

proof fn lemma_digits_value_extend(s: Seq<u8>, start: int, k: int, end: int)
    requires
        0 <= start <= k <= end <= s.len(),
        forall|m: int| start <= m < end ==> is_digit_byte(#[trigger] s[m]),
    ensures
        digits_value(s.subrange(start, end)) >= digits_value(s.subrange(start, k)),
        digits_value(s.subrange(start, k)) >= 0,
    decreases end - k,
{
    if k == end {
        lemma_digits_value_nonneg(s, start, k);
    } else {
        lemma_digits_value_extend(s, start, k, end - 1);
        lemma_digits_value_nonneg(s, start, end - 1);
        assert(s.subrange(start, end).drop_last() =~= s.subrange(start, end - 1));
        assert(s.subrange(start, end).last() == s[end - 1]);
    }
}

proof fn lemma_digits_value_nonneg(s: Seq<u8>, start: int, end: int)
    requires
        0 <= start <= end <= s.len(),
        forall|m: int| start <= m < end ==> is_digit_byte(#[trigger] s[m]),
    ensures
        digits_value(s.subrange(start, end)) >= 0,
    decreases end - start,
{
    if start < end {
        lemma_digits_value_nonneg(s, start, end - 1);
        assert(s.subrange(start, end).drop_last() =~= s.subrange(start, end - 1));
        assert(s.subrange(start, end).last() == s[end - 1]);
    }
}

fn parse_u32_digits(t: &[u8], start: usize, end: usize) -> (r: Option<u32>)
    requires
        start <= end <= t@.len(),
        forall|m: int| start <= m < end ==> is_digit_byte(#[trigger] t@[m]),
    ensures
        match r {
            Some(v) => v == digits_value(t@.subrange(start as int, end as int)),
            None => digits_value(t@.subrange(start as int, end as int)) > u32::MAX,
        },
{
    let mut acc: u64 = 0;
    let mut k: usize = start;
    while k < end
        invariant
            start <= k <= end <= t@.len(),
            forall|m: int| start <= m < end ==> is_digit_byte(#[trigger] t@[m]),
            acc == digits_value(t@.subrange(start as int, k as int)),
            acc <= u32::MAX,
        decreases end - k,
    {
        let b = *slice_index_get(t, k);
        proof {
            assert(is_digit_byte(t@[k as int]));
        }
        acc = acc * 10 + ((b - 48) as u64);
        k += 1;
        proof {
            assert(t@.subrange(start as int, k as int).drop_last() =~= t@.subrange(
                start as int,
                k - 1,
            ));
            assert(t@.subrange(start as int, k as int).last() == t@[k - 1]);
        }
        if acc > 0xFFFF_FFFFu64 {
            proof {
                lemma_digits_value_extend(t@, start as int, k as int, end as int);
            }
            return None;
        }
    }
    Some(acc as u32)
}

impl CleanOutput {
    /// A delta of nothing removed.
    pub fn zero() -> (r: CleanOutput)
        ensures
            r.files_removed == 0,
            r.bytes_removed == 0,
    {
        CleanOutput { files_removed: 0, bytes_removed: 0 }
    }

    /// Reads the first occurrence of the expected pattern out of one
    /// invocation's diagnostic bytes.
    pub fn parse(text: &[u8]) -> (r: Option<CleanOutput>)
        ensures
            r == parsed_delta(text@),
    {
        let removed_pat = marker_removed();
        let files_pat = marker_files();
        let comma_pat = marker_comma();
        let total_pat = marker_total();
        let n = text.len();
        let mut i: usize = 0;
        while i < n
            invariant
                n == text@.len(),
                0 <= i <= n,
                first_match_from(text@, 0) == first_match_from(text@, i as int),
                removed_pat@ == removed_marker(),
                files_pat@ == files_marker(),
                comma_pat@ == comma_marker(),
                total_pat@ == total_marker(),
            decreases n - i,
        {
            if starts_with_at(text, i, &removed_pat) {
                let ds = i + 8;
                let de = scan_digits(text, ds);
                if de > ds && starts_with_at(text, de, &files_pat) {
                    proof {
                        assert(match_at(text@, i as int));
                        assert(first_match_from(text@, i as int) == Some(i as int));
                        lemma_digit_run(text@, ds as int);
                    }
                    match parse_u32_digits(text, ds, de) {
                        None => {
                            return None;
                        },
                        Some(f) => {
                            let p = de + 6;
                            let mut bytes: u64 = 0;
                            if starts_with_at(text, p, &comma_pat) {
                                let ss = p + 2;
                                let se = scan_size_bytes(text, ss);
                                let ae = scan_letters(text, se);
                                if se > ss && ae > se && starts_with_at(text, ae, &total_pat) {
                                    let cap = slice_subrange(text, ss, ae);
                                    proof {
                                        assert(size_field(text@, p as int) == Some(cap@));
                                    }
                                    match parse_byte_size(cap) {
                                        Some(b) => {
                                            bytes = b;
                                        },
                                        None => {
                                            bytes = 0;
                                        },
                                    }
                                } else {
                                    proof {
                                        assert(size_field(text@, p as int) is None);
                                    }
                                }
                            } else {
                                proof {
                                    assert(size_field(text@, p as int) is None);
                                }
                            }
                            proof {
                                assert(bytes == size_field_value(text@, p as int));
                            }
                            return Some(CleanOutput { files_removed: f, bytes_removed: bytes });
                        },
                    }
                }
            }
            proof {
                assert(!match_at(text@, i as int));
                assert(first_match_from(text@, i as int) == first_match_from(text@, i + 1));
            }
            i += 1;
        }
        None
    }

    /// Accumulates another delta into this one, component-wise.
    pub fn add_assign(&mut self, rhs: CleanOutput)
        requires
            old(self).files_removed + rhs.files_removed <= u32::MAX,
            old(self).bytes_removed + rhs.bytes_removed <= u64::MAX,
        ensures
            final(self).files_removed == old(self).files_removed + rhs.files_removed,
            final(self).bytes_removed == old(self).bytes_removed + rhs.bytes_removed,
    {
        self.files_removed = self.files_removed + rhs.files_removed;
        self.bytes_removed = self.bytes_removed + rhs.bytes_removed;
    }
}

// ---------------------------------------------------------------------------
// Accumulation laws
// ---------------------------------------------------------------------------

/// The two numeric components of a delta, as unbounded integers.
pub open spec fn delta_weight() -> spec_fn(CleanOutput) -> (int, int, int) {
    |d: CleanOutput| (d.files_removed as int, d.bytes_removed as int, 0int)
}

/// The component-wise totals of a sequence of deltas.
pub open spec fn delta_total(s: Seq<CleanOutput>) -> (int, int) {
    let t = crate::fold::weighted_total(s, delta_weight());
    (t.0, t.1)
}

/// Accumulation is commutative: two deltas combine to the same totals in
/// either order.
pub proof fn lemma_accumulate_commutative(a: CleanOutput, b: CleanOutput)
    ensures
        delta_total(seq![a, b]) == delta_total(seq![b, a]),
{
    reveal_with_fuel(crate::fold::weighted_total, 4);
    assert(seq![a, b].drop_last() =~= seq![a]);
    assert(seq![b, a].drop_last() =~= seq![b]);
    assert(seq![a].drop_last() =~= Seq::<CleanOutput>::empty());
    assert(seq![b].drop_last() =~= Seq::<CleanOutput>::empty());
    assert(seq![a, b].last() == b);
    assert(seq![b, a].last() == a);
}

/// Accumulation is associative: however intermediate sums are grouped, the
/// totals are the plain component-wise integer sums.
pub proof fn lemma_accumulate_associative(a: CleanOutput, b: CleanOutput, c: CleanOutput)
    ensures
        delta_total(seq![a, b, c]).0 == (a.files_removed + b.files_removed) + c.files_removed,
        delta_total(seq![a, b, c]).0 == a.files_removed + (b.files_removed + c.files_removed),
        delta_total(seq![a, b, c]).1 == (a.bytes_removed + b.bytes_removed) + c.bytes_removed,
        delta_total(seq![a, b, c]).1 == a.bytes_removed + (b.bytes_removed + c.bytes_removed),
{
    reveal_with_fuel(crate::fold::weighted_total, 5);
    assert(seq![a, b, c].drop_last() =~= seq![a, b]);
    assert(seq![a, b].drop_last() =~= seq![a]);
    assert(seq![a].drop_last() =~= Seq::<CleanOutput>::empty());
    assert(seq![a, b, c].last() == c);
    assert(seq![a, b].last() == b);
    assert(seq![a].last() == a);
}

/// Folding any permutation of a fixed multiset of deltas yields the same
/// totals: accumulation is insensitive to processing order.
pub proof fn lemma_delta_total_permutation(s1: Seq<CleanOutput>, s2: Seq<CleanOutput>)
    requires
        s1.to_multiset() == s2.to_multiset(),
    ensures
        delta_total(s1) == delta_total(s2),
{
    crate::fold::lemma_weighted_total_permutation(s1, s2, delta_weight());
}

/// Parsing is deterministic: one diagnostic text yields one delta, however
/// often it is read.
pub proof fn lemma_parse_deterministic(t1: Seq<u8>, t2: Seq<u8>)
    requires
        t1 == t2,
    ensures
        parsed_delta(t1) == parsed_delta(t2),
{
}

} // verus!
