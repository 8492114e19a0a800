//! The team-sheet parser: turns a plain-text roster description, given as
//! bytes, into a configured roster entity, resolving names against the
//! caller's registries.
//!
//! The text format is line-oriented: the first line names the species,
//! optionally with a nickname before a parenthesised species name; later
//! lines set the level, shininess, nature, effort levels, or add moves.

use vstd::prelude::*;

use crate::bytes::bytes_equal;
use crate::moves::Move;
use crate::moves::MoveModel;
use crate::pokemon::PokemonModel;
use crate::pokemon::Species;
use crate::pokemon::SpeciesModel;
use crate::stats::Nature;
use crate::stats::StatBlock;

verus! {

/// Whether `b` is an ASCII whitespace byte: space, tab, line feed, vertical
/// tab, form feed, or carriage return.
pub open spec fn is_space(b: u8) -> bool {
    b == 32 || b == 9 || b == 10 || b == 11 || b == 12 || b == 13
}

/// Whether `b` is an ASCII decimal digit.
pub open spec fn is_digit(b: u8) -> bool {
    48 <= b <= 57
}

/// `b` with an ASCII upper-case letter folded to lower case.
pub open spec fn lower_byte(b: u8) -> u8 {
    if 65 <= b <= 90 {
        (b + 32) as u8
    } else {
        b
    }
}

/// `s` with every ASCII upper-case letter folded to lower case.
pub open spec fn lower_seq(s: Seq<u8>) -> Seq<u8> {
    s.map_values(|b: u8| lower_byte(b))
}

/// `s` without its leading whitespace.
pub open spec fn trim_front(s: Seq<u8>) -> Seq<u8>
    decreases s.len(),
{
    if s.len() > 0 && is_space(s[0]) {
        trim_front(s.skip(1))
    } else {
        s
    }
}

/// `s` without its trailing whitespace.
pub open spec fn trim_back(s: Seq<u8>) -> Seq<u8>
    decreases s.len(),
{
    if s.len() > 0 && is_space(s.last()) {
        trim_back(s.drop_last())
    } else {
        s
    }
}

/// `s` without leading and trailing whitespace.
pub open spec fn trim_spec(s: Seq<u8>) -> Seq<u8> {
    trim_back(trim_front(s))
}

/// Whether `p` is a prefix of `s`.
pub open spec fn starts_with(s: Seq<u8>, p: Seq<u8>) -> bool {
    p.len() <= s.len() && s.take(p.len() as int) == p
}

/// Whether `p` occurs in `s` starting at `i`.
pub open spec fn match_at(s: Seq<u8>, p: Seq<u8>, i: int) -> bool {
    0 <= i && i + p.len() <= s.len() && s.subrange(i, i + p.len()) == p
}

/// The first position at or after `i` where `p` occurs in `s`, or -1.
pub open spec fn find_sub_from(s: Seq<u8>, p: Seq<u8>, i: int) -> int
    decreases s.len() + 1 - i when 0 <= i <= s.len() + 1
{
    if i < 0 || i + p.len() > s.len() {
        -1
    } else if match_at(s, p, i) {
        i
    } else {
        find_sub_from(s, p, i + 1)
    }
}

/// The last position of byte `b` in `s`, or -1.
pub open spec fn rfind(s: Seq<u8>, b: u8) -> int
    decreases s.len(),
{
    if s.len() == 0 {
        -1
    } else if s.last() == b {
        s.len() - 1
    } else {
        rfind(s.drop_last(), b)
    }
}

/// The numeric value of a run of ASCII digits.
pub open spec fn digits_val(s: Seq<u8>) -> int
    decreases s.len(),
{
    if s.len() == 0 {
        0
    } else {
        digits_val(s.drop_last()) * 10 + (s.last() - 48)
    }
}

proof fn lemma_trim_front_at(s: Seq<u8>, k: int)
    requires
        0 <= k <= s.len(),
        forall|j: int| 0 <= j < k ==> is_space(s[j]),
        k == s.len() || !is_space(s[k]),
    ensures
        trim_front(s) == s.skip(k),
    decreases k,
{
    if k == 0 {
        assert(s.skip(0) =~= s);
    } else {
        assert(is_space(s[0]));
        assert(forall|j: int| 0 <= j < k - 1 ==> is_space(s.skip(1)[j]));
        if k < s.len() {
            assert(s.skip(1)[k - 1] == s[k]);
        }
        lemma_trim_front_at(s.skip(1), k - 1);
        assert(s.skip(1).skip(k - 1) =~= s.skip(k));
    }
}

proof fn lemma_trim_back_at(s: Seq<u8>, k: int)
    requires
        0 <= k <= s.len(),
        forall|j: int| k <= j < s.len() ==> is_space(s[j]),
        k == 0 || !is_space(s[k - 1]),
    ensures
        trim_back(s) == s.take(k),
    decreases s.len(),
{
    if k == s.len() {
        if s.len() > 0 {
            assert(!is_space(s.last()));
        }
        assert(s.take(k) =~= s);
    } else {
        assert(is_space(s.last()));
        assert(forall|j: int| k <= j < s.drop_last().len() ==> is_space(s.drop_last()[j]));
        if k > 0 {
            assert(s.drop_last()[k - 1] == s[k - 1]);
        }
        lemma_trim_back_at(s.drop_last(), k);
        assert(s.drop_last().take(k) =~= s.take(k));
    }
}

proof fn lemma_rfind_found(s: Seq<u8>, b: u8, i: int)
    requires
        0 <= i < s.len(),
        s[i] == b,
        forall|j: int| i < j < s.len() ==> s[j] != b,
    ensures
        rfind(s, b) == i,
    decreases s.len(),
{
    if i == s.len() - 1 {
    } else {
        assert(s.last() != b);
        assert(s.drop_last()[i] == s[i]);
        assert(forall|j: int| i < j < s.drop_last().len() ==> s.drop_last()[j] != b);
        lemma_rfind_found(s.drop_last(), b, i);
    }
}

proof fn lemma_rfind_none(s: Seq<u8>, b: u8)
    requires
        forall|j: int| 0 <= j < s.len() ==> s[j] != b,
    ensures
        rfind(s, b) == -1,
    decreases s.len(),
{
    if s.len() > 0 {
        assert(forall|j: int| 0 <= j < s.drop_last().len() ==> s.drop_last()[j] != b);
        lemma_rfind_none(s.drop_last(), b);
    }
}

/// `s` with every ASCII upper-case letter folded to lower case.
pub fn ascii_lower(v: &Vec<u8>) -> (r: Vec<u8>)
    ensures
        r@ == lower_seq(v@),
{
    let mut out: Vec<u8> = Vec::new();
    let mut i: usize = 0;
    while i < v.len()
        invariant
            i <= v.len(),
            out@ == lower_seq(v@.take(i as int)),
        decreases v.len() - i,
    {
        let b = v[i];
        let low: u8 = if 65 <= b && b <= 90 {
            b + 32
        } else {
            b
        };
        out.push(low);
        proof {
            assert(out@ =~= lower_seq(v@.take(i + 1 as int)));
        }
        i += 1;
    }
    proof {
        assert(v@.take(v@.len() as int) =~= v@);
    }
    out
}

/// Whether `b` is an ASCII whitespace byte.
fn is_space_byte(b: u8) -> (r: bool)
    ensures
        r == is_space(b),
{
    b == 32 || b == 9 || b == 10 || b == 11 || b == 12 || b == 13
}

/// A fresh copy of `v[lo..hi]`.
pub fn copy_range(v: &Vec<u8>, lo: usize, hi: usize) -> (r: Vec<u8>)
    requires
        lo <= hi <= v@.len(),
    ensures
        r@ == v@.subrange(lo as int, hi as int),
{
    let mut out: Vec<u8> = Vec::new();
    let mut i: usize = lo;
    while i < hi
        invariant
            lo <= i <= hi <= v@.len(),
            out@ == v@.subrange(lo as int, i as int),
        decreases hi - i,
    {
        out.push(v[i]);
        proof {
            assert(out@ =~= v@.subrange(lo as int, i + 1 as int));
        }
        i += 1;
    }
    out
}

/// `v` without leading and trailing whitespace.
pub fn trim_bytes(v: &Vec<u8>) -> (r: Vec<u8>)
    ensures
        r@ == trim_spec(v@),
{
    let mut lo: usize = 0;
    while lo < v.len() && is_space_byte(v[lo])
        invariant
            lo <= v@.len(),
            forall|j: int| 0 <= j < lo ==> is_space(v@[j]),
        decreases v.len() - lo,
    {
        lo += 1;
    }
    proof {
        lemma_trim_front_at(v@, lo as int);
    }
    if lo == v.len() {
        proof {
            assert(v@.skip(lo as int) =~= Seq::<u8>::empty());
            assert(trim_back(Seq::<u8>::empty()) =~= Seq::<u8>::empty());
        }
        return Vec::new();
    }
    let mut hi: usize = v.len();
    while hi > lo && is_space_byte(v[hi - 1])
        invariant
            lo <= hi <= v@.len(),
            forall|j: int| hi <= j < v@.len() ==> is_space(v@[j]),
        decreases hi,
    {
        hi -= 1;
    }
    proof {
        assert(!is_space(v@[lo as int]));
        assert(hi > lo);
        let tf = v@.skip(lo as int);
        assert(forall|j: int| hi - lo <= j < tf.len() ==> is_space(tf[j]));
        assert(tf[hi - lo - 1] == v@[hi - 1]);
        lemma_trim_back_at(tf, hi - lo);
        assert(tf.take(hi - lo) =~= v@.subrange(lo as int, hi as int));
    }
    copy_range(v, lo, hi)
}

/// Whether `p` is a prefix of `s`.
pub fn bytes_starts_with(s: &Vec<u8>, p: &Vec<u8>) -> (r: bool)
    ensures
        r == starts_with(s@, p@),
{
    if p.len() > s.len() {
        return false;
    }
    let mut i: usize = 0;
    while i < p.len()
        invariant
            i <= p@.len() <= s@.len(),
            forall|j: int| 0 <= j < i ==> s@[j] == p@[j],
        decreases p.len() - i,
    {
        if s[i] != p[i] {
            assert(s@.take(p@.len() as int)[i as int] != p@[i as int]);
            return false;
        }
        i += 1;
    }
    proof {
        assert(s@.take(p@.len() as int) =~= p@);
    }
    true
}

/// Whether `p` occurs in `s` at position `i`.
fn match_at_exec(s: &Vec<u8>, p: &Vec<u8>, i: usize) -> (r: bool)
    requires
        i + p@.len() <= s@.len(),
    ensures
        r == match_at(s@, p@, i as int),
{
    let n = s.len();
    proof {
        assert(s@.len() == n);
    }
    let mut j: usize = 0;
    while j < p.len()
        invariant
            j <= p@.len(),
            i + p@.len() <= s@.len(),
            s@.len() <= usize::MAX,
            forall|k: int| 0 <= k < j ==> s@[i + k] == p@[k],
        decreases p.len() - j,
    {
        proof {
            assert(i + j < s@.len());
        }
        if s[i + j] != p[j] {
            assert(s@.subrange(i as int, i + p@.len())[j as int] != p@[j as int]);
            return false;
        }
        j += 1;
    }
    proof {
        assert(s@.subrange(i as int, i + p@.len()) =~= p@);
    }
    true
}

/// The first position where `p` occurs in `s`, or `None`.
pub fn find_sub(s: &Vec<u8>, p: &Vec<u8>) -> (r: Option<usize>)
    ensures
        match r {
            Some(i) => find_sub_from(s@, p@, 0) == i as int,
            None => find_sub_from(s@, p@, 0) == -1,
        },
{
    let mut i: usize = 0;
    if p.len() > s.len() {
        proof {
            assert(find_sub_from(s@, p@, 0) == -1);
        }
        return None;
    }
    let bound = s.len() - p.len();
    while i <= bound
        invariant
            i <= bound + 1,
            bound == s@.len() - p@.len(),
            p@.len() <= s@.len(),
            s@.len() <= usize::MAX,
            find_sub_from(s@, p@, 0) == find_sub_from(s@, p@, i as int),
        decreases bound + 1 - i,
    {
        if match_at_exec(s, p, i) {
            return Some(i);
        }
        proof {
            if p@.len() == 0 {
                assert(s@.subrange(i as int, i as int) =~= p@);
                assert(match_at(s@, p@, i as int));
            }
            assert(p@.len() > 0);
        }
        i += 1;
    }
    proof {
        assert(find_sub_from(s@, p@, i as int) == -1);
    }
    None
}

/// The last position of byte `b` in `v`, or `None`.
pub fn rfind_byte(v: &Vec<u8>, b: u8) -> (r: Option<usize>)
    ensures
        match r {
            Some(i) => rfind(v@, b) == i as int,
            None => rfind(v@, b) == -1,
        },
{
    let mut i: usize = v.len();
    while i > 0
        invariant
            i <= v@.len(),
            forall|j: int| i <= j < v@.len() ==> v@[j] != b,
        decreases i,
    {
        if v[i - 1] == b {
            proof {
                lemma_rfind_found(v@, b, i - 1);
            }
            return Some(i - 1);
        }
        i -= 1;
    }
    proof {
        lemma_rfind_none(v@, b);
    }
    None
}

/// The first position at or after `i` holding byte `b`, or the length.
pub open spec fn first_byte_from(s: Seq<u8>, b: u8, i: int) -> int
    decreases s.len() - i when 0 <= i <= s.len()
{
    if i >= s.len() {
        i
    } else if s[i] == b {
        i
    } else {
        first_byte_from(s, b, i + 1)
    }
}

proof fn lemma_first_byte_bounds(s: Seq<u8>, b: u8, i: int)
    requires
        0 <= i <= s.len(),
    ensures
        i <= first_byte_from(s, b, i) <= s.len(),
    decreases s.len() - i,
{
    if i < s.len() && s[i] != b {
        lemma_first_byte_bounds(s, b, i + 1);
    }
}

proof fn lemma_first_byte_at(s: Seq<u8>, b: u8, i: int, k: int)
    requires
        0 <= i <= k <= s.len(),
        forall|j: int| i <= j < k ==> s[j] != b,
        k == s.len() || s[k] == b,
    ensures
        first_byte_from(s, b, i) == k,
    decreases k - i,
{
    if i < k {
        lemma_first_byte_at(s, b, i + 1, k);
    }
}

/// A line with its terminating carriage return removed.
pub open spec fn chop_cr(s: Seq<u8>) -> Seq<u8> {
    if s.len() > 0 && s.last() == 13 {
        s.drop_last()
    } else {
        s
    }
}

/// The lines of `s`: split at line feeds, a carriage return before a line
/// feed dropped, the final line ending optional, and no line at all for
/// empty input.
pub open spec fn split_lines_spec(s: Seq<u8>) -> Seq<Seq<u8>>
    decreases s.len() via split_lines_spec_decreases
{
    if s.len() == 0 {
        Seq::<Seq<u8>>::empty()
    } else {
        let i = first_byte_from(s, 10, 0);
        if i >= s.len() {
            seq![s]
        } else {
            seq![chop_cr(s.take(i))] + split_lines_spec(s.skip(i + 1))
        }
    }
}

#[via_fn]
proof fn split_lines_spec_decreases(s: Seq<u8>) {
    lemma_first_byte_bounds(s, 10, 0);
}

/// The slash-separated fields of `s`: every separator produces a field, so
/// empty input is one empty field.
pub open spec fn split_slashes_spec(s: Seq<u8>) -> Seq<Seq<u8>>
    decreases s.len() via split_slashes_spec_decreases
{
    let i = first_byte_from(s, 47, 0);
    if i >= s.len() {
        seq![s]
    } else {
        seq![s.take(i)] + split_slashes_spec(s.skip(i + 1))
    }
}

#[via_fn]
proof fn split_slashes_spec_decreases(s: Seq<u8>) {
    lemma_first_byte_bounds(s, 47, 0);
}

/// Split `v` into fields at every slash.
fn split_at_slashes(v: &Vec<u8>) -> (r: Vec<Vec<u8>>)
    ensures
        crate::bytes::views_of(r@) == split_slashes_spec(v@),
{
    let sep: u8 = 47;
    let mut out: Vec<Vec<u8>> = Vec::new();
    let mut pos: usize = 0;
    let n = v.len();
    proof {
        assert(v@.skip(0) =~= v@);
        assert(crate::bytes::views_of(out@) =~= Seq::<Seq<u8>>::empty());
        assert(Seq::<Seq<u8>>::empty() + split_slashes_spec(v@) =~= split_slashes_spec(v@));
    }
    loop
        invariant
            pos <= n,
            n == v@.len(),
            sep == 47,
            split_slashes_spec(v@) == crate::bytes::views_of(out@) + split_slashes_spec(
                v@.skip(pos as int),
            ),
        decreases n + 1 - pos,
    {
        let ghost rest = v@.skip(pos as int);
        let mut k: usize = pos;
        while k < n && v[k] != sep
            invariant
                pos <= k <= n,
                n == v@.len(),
                forall|j: int| pos <= j < k ==> v@[j] != sep,
            decreases n - k,
        {
            k += 1;
        }
        proof {
            assert(forall|j: int| 0 <= j < k - pos ==> rest[j] != sep);
            lemma_first_byte_at(rest, sep, 0, k - pos);
        }
        let field = copy_range(v, pos, k);
        proof {
            assert(field@ =~= rest.take(k - pos));
        }
        out.push(field);
        if k == n {
            proof {
                assert(first_byte_from(rest, sep, 0) == rest.len());
                assert(rest.take(k - pos) =~= rest);
                assert(split_slashes_spec(rest) =~= seq![rest]);
                assert(crate::bytes::views_of(out@) =~= crate::bytes::views_of(out@.drop_last())
                    + seq![rest]);
            }
            return out;
        }
        proof {
            assert(first_byte_from(rest, sep, 0) == k - pos < rest.len());
            assert(rest.skip(k - pos + 1) =~= v@.skip(k + 1 as int));
            assert(crate::bytes::views_of(out@) =~= crate::bytes::views_of(out@.drop_last())
                + seq![rest.take(k - pos)]);
            assert(crate::bytes::views_of(out@.drop_last()) + (seq![rest.take(k - pos)]
                + split_slashes_spec(v@.skip(k + 1 as int))) =~= (crate::bytes::views_of(
                out@.drop_last(),
            ) + seq![rest.take(k - pos)]) + split_slashes_spec(v@.skip(k + 1 as int)));
        }
        pos = k + 1;
    }
}

/// Split `v` into its lines.
pub fn split_lines(v: &Vec<u8>) -> (r: Vec<Vec<u8>>)
    ensures
        crate::bytes::views_of(r@) == split_lines_spec(v@),
{
    let mut out: Vec<Vec<u8>> = Vec::new();
    let mut pos: usize = 0;
    let n = v.len();
    proof {
        assert(v@.skip(0) =~= v@);
        assert(crate::bytes::views_of(out@) =~= Seq::<Seq<u8>>::empty());
        assert(Seq::<Seq<u8>>::empty() + split_lines_spec(v@) =~= split_lines_spec(v@));
    }
    while pos < n
        invariant
            pos <= n,
            n == v@.len(),
            split_lines_spec(v@) == crate::bytes::views_of(out@) + split_lines_spec(
                v@.skip(pos as int),
            ),
        decreases n - pos,
    {
        let ghost rest = v@.skip(pos as int);
        let mut k: usize = pos;
        while k < n && v[k] != 10
            invariant
                pos <= k <= n,
                n == v@.len(),
                forall|j: int| pos <= j < k ==> v@[j] != 10,
            decreases n - k,
        {
            k += 1;
        }
        proof {
            assert(forall|j: int| 0 <= j < k - pos ==> rest[j] != 10);
            lemma_first_byte_at(rest, 10, 0, k - pos);
        }
        if k == n {
            let field = copy_range(v, pos, k);
            proof {
                assert(first_byte_from(rest, 10, 0) == rest.len());
                assert(rest.len() > 0);
                assert(field@ =~= rest);
                assert(split_lines_spec(rest) =~= seq![rest]);
            }
            out.push(field);
            proof {
                assert(crate::bytes::views_of(out@) =~= crate::bytes::views_of(out@.drop_last())
                    + seq![rest]);
                assert(v@.skip(n as int) =~= Seq::<u8>::empty());
                assert(split_lines_spec(Seq::<u8>::empty()) =~= Seq::<Seq<u8>>::empty());
                assert(crate::bytes::views_of(out@) + Seq::<Seq<u8>>::empty()
                    =~= crate::bytes::views_of(out@));
            }
            return out;
        }
        let hi = if k > pos && v[k - 1] == 13 {
            k - 1
        } else {
            k
        };
        let field = copy_range(v, pos, hi);
        proof {
            assert(rest.len() > 0);
            assert(first_byte_from(rest, 10, 0) == k - pos < rest.len());
            assert(rest.take(k - pos) =~= v@.subrange(pos as int, k as int));
            if k > pos && v@[k - 1] == 13 {
                assert(rest.take(k - pos).last() == 13);
                assert(chop_cr(rest.take(k - pos)) =~= v@.subrange(pos as int, hi as int));
            } else {
                assert(chop_cr(rest.take(k - pos)) =~= v@.subrange(pos as int, hi as int));
            }
            assert(field@ == chop_cr(rest.take(k - pos)));
            assert(rest.skip(k - pos + 1) =~= v@.skip(k + 1 as int));
        }
        out.push(field);
        proof {
            assert(crate::bytes::views_of(out@) =~= crate::bytes::views_of(out@.drop_last())
                + seq![field@]);
            assert(crate::bytes::views_of(out@.drop_last()) + (seq![field@] + split_lines_spec(
                v@.skip(k + 1 as int),
            )) =~= (crate::bytes::views_of(out@.drop_last()) + seq![field@]) + split_lines_spec(
                v@.skip(k + 1 as int),
            ));
        }
        pos = k + 1;
    }
    proof {
        assert(v@.skip(pos as int) =~= Seq::<u8>::empty());
        assert(split_lines_spec(Seq::<u8>::empty()) =~= Seq::<Seq<u8>>::empty());
        assert(crate::bytes::views_of(out@) + Seq::<Seq<u8>>::empty() =~= crate::bytes::views_of(
            out@,
        ));
    }
    out
}

/// Whether every byte of `s` is an ASCII digit.
pub open spec fn all_digits(s: Seq<u8>) -> bool {
    forall|j: int| 0 <= j < s.len() ==> is_digit(s[j])
}

/// What `u8` a byte string parses to: an optional leading plus sign, then at
/// least one digit, valued at most 255.
pub open spec fn parse_u8_spec(s: Seq<u8>) -> Option<u8> {
    let body = if s.len() > 0 && s[0] == 43 {
        s.skip(1)
    } else {
        s
    };
    if body.len() > 0 && all_digits(body) && digits_val(body) <= 255 {
        Some(digits_val(body) as u8)
    } else {
        None
    }
}

proof fn lemma_digits_val_extend(s: Seq<u8>, i: int)
    requires
        0 <= i < s.len(),
    ensures
        digits_val(s.take(i + 1)) == digits_val(s.take(i)) * 10 + (s[i] - 48),
{
    assert(s.take(i + 1).drop_last() =~= s.take(i));
    assert(s.take(i + 1).last() == s[i]);
}

proof fn lemma_digits_val_nonneg(s: Seq<u8>)
    requires
        all_digits(s),
    ensures
        digits_val(s) >= 0,
    decreases s.len(),
{
    if s.len() > 0 {
        assert(all_digits(s.drop_last()));
        lemma_digits_val_nonneg(s.drop_last());
    }
}

proof fn lemma_digits_val_mono(s: Seq<u8>, i: int, j: int)
    requires
        all_digits(s),
        0 <= i <= j <= s.len(),
    ensures
        digits_val(s.take(i)) <= digits_val(s.take(j)),
    decreases j - i,
{
    if i < j {
        lemma_digits_val_mono(s, i, j - 1);
        assert(all_digits(s.take(j - 1))) by {
            assert(forall|k: int| 0 <= k < j - 1 ==> s.take(j - 1)[k] == s[k]);
        }
        lemma_digits_val_nonneg(s.take(j - 1));
        lemma_digits_val_extend(s, j - 1);
    }
}

/// Parse an unsigned byte value: an optional plus sign, then digits.
pub fn parse_u8_bytes(v: &Vec<u8>) -> (r: Option<u8>)
    ensures
        r == parse_u8_spec(v@),
{
    let n = v.len();
    let start: usize = if n > 0 && v[0] == 43 {
        1
    } else {
        0
    };
    let ghost body: Seq<u8> = v@.skip(start as int);
    if start == n {
        proof {
            assert(body.len() == 0);
        }
        return None;
    }
    let mut acc: u32 = 0;
    let mut i: usize = start;
    while i < n
        invariant
            start <= i <= n,
            n == v@.len(),
            start == (if v@.len() > 0 && v@[0] == 43 {
                1int
            } else {
                0int
            }),
            start < n,
            body == v@.skip(start as int),
            all_digits(body.take(i - start)),
            acc <= 255,
            acc == digits_val(body.take(i - start)),
        decreases n - i,
    {
        let b = v[i];
        if !(48 <= b && b <= 57) {
            proof {
                if start == 0 {
                    assert(v@.skip(0) =~= v@);
                }
                assert(body[i - start] == v@[i as int]);
                assert(!is_digit(body[i - start]));
                assert(!all_digits(body));
            }
            return None;
        }
        proof {
            lemma_digits_val_extend(body, i - start);
            assert(all_digits(body.take(i - start + 1))) by {
                assert(forall|k: int|
                    0 <= k < i - start + 1 ==> body.take(i - start + 1)[k] == body[k]);
                assert(body[i - start] == v@[i as int]);
            }
        }
        let next: u32 = acc * 10 + ((b - 48) as u32);
        if next > 255 {
            proof {
                if start == 0 {
                    assert(v@.skip(0) =~= v@);
                }
                if all_digits(body) {
                    lemma_digits_val_mono(body, i - start + 1, body.len() as int);
                    assert(body.take(body.len() as int) =~= body);
                    assert(digits_val(body) > 255);
                }
            }
            return None;
        }
        acc = next;
        i += 1;
    }
    proof {
        if start == 0 {
            assert(v@.skip(0) =~= v@);
        }
        assert(body.take(i - start) =~= body);
    }
    Some(acc as u8)
}

/// The value of the digit run `v[lo..hi]`, or `None` when it exceeds
/// `i32::MAX`.
fn digits_to_i32(v: &Vec<u8>, lo: usize, hi: usize) -> (r: Option<i32>)
    requires
        lo <= hi <= v@.len(),
        all_digits(v@.subrange(lo as int, hi as int)),
    ensures
        r matches Some(val) ==> val == digits_val(v@.subrange(lo as int, hi as int))
            && digits_val(v@.subrange(lo as int, hi as int)) <= i32::MAX,
        r is None ==> digits_val(v@.subrange(lo as int, hi as int)) > i32::MAX,
{
    let ghost body: Seq<u8> = v@.subrange(lo as int, hi as int);
    let mut acc: i64 = 0;
    let mut i: usize = lo;
    while i < hi
        invariant
            lo <= i <= hi <= v@.len(),
            body == v@.subrange(lo as int, hi as int),
            all_digits(body),
            0 <= acc <= i32::MAX,
            acc == digits_val(body.take(i - lo)),
        decreases hi - i,
    {
        let b = v[i];
        proof {
            assert(body[i - lo] == v@[i as int]);
            assert(is_digit(body[i - lo]));
            lemma_digits_val_extend(body, i - lo);
        }
        let next: i64 = acc * 10 + ((b - 48) as i64);
        if next > (i32::MAX as i64) {
            proof {
                lemma_digits_val_mono(body, i - lo + 1, body.len() as int);
                assert(body.take(body.len() as int) =~= body);
            }
            return None;
        }
        acc = next;
        i += 1;
    }
    proof {
        assert(body.take(i - lo) =~= body);
    }
    Some(acc as i32)
}

/// How one byte of a species name maps into an identifier: ASCII letters are
/// folded to lower case, digits and hyphens pass through, and every other
/// byte becomes an underscore.
pub open spec fn id_map_byte(b: u8) -> u8 {
    let l = lower_byte(b);
    if is_digit(l) || (97 <= l <= 122) || l == 45 {
        l
    } else {
        95
    }
}

/// `s` mapped byte-wise into identifier characters.
pub open spec fn id_mapped(s: Seq<u8>) -> Seq<u8> {
    s.map_values(|b: u8| id_map_byte(b))
}

/// `s` without leading underscores.
pub open spec fn trim_us_front(s: Seq<u8>) -> Seq<u8>
    decreases s.len(),
{
    if s.len() > 0 && s[0] == 95 {
        trim_us_front(s.skip(1))
    } else {
        s
    }
}

/// `s` without trailing underscores.
pub open spec fn trim_us_back(s: Seq<u8>) -> Seq<u8>
    decreases s.len(),
{
    if s.len() > 0 && s.last() == 95 {
        trim_us_back(s.drop_last())
    } else {
        s
    }
}

/// One left-to-right pass replacing each non-overlapping underscore pair by
/// a single underscore.
pub open spec fn collapse_dunder(s: Seq<u8>) -> Seq<u8>
    decreases s.len(),
{
    if s.len() >= 2 && s[0] == 95 && s[1] == 95 {
        seq![95u8] + collapse_dunder(s.skip(2))
    } else if s.len() >= 1 {
        seq![s[0]] + collapse_dunder(s.skip(1))
    } else {
        Seq::<u8>::empty()
    }
}

/// The species identifier of a free-form species name: trimmed, mapped into
/// identifier characters, stripped of outer underscores, and with underscore
/// pairs collapsed once.
pub open spec fn pokemon_id_spec(s: Seq<u8>) -> Seq<u8> {
    collapse_dunder(trim_us_back(trim_us_front(id_mapped(trim_spec(s)))))
}

proof fn lemma_trim_us_front_at(s: Seq<u8>, k: int)
    requires
        0 <= k <= s.len(),
        forall|j: int| 0 <= j < k ==> s[j] == 95,
        k == s.len() || s[k] != 95,
    ensures
        trim_us_front(s) == s.skip(k),
    decreases k,
{
    if k == 0 {
        assert(s.skip(0) =~= s);
    } else {
        assert(forall|j: int| 0 <= j < k - 1 ==> s.skip(1)[j] == 95);
        if k < s.len() {
            assert(s.skip(1)[k - 1] == s[k]);
        }
        lemma_trim_us_front_at(s.skip(1), k - 1);
        assert(s.skip(1).skip(k - 1) =~= s.skip(k));
    }
}

proof fn lemma_trim_us_back_at(s: Seq<u8>, k: int)
    requires
        0 <= k <= s.len(),
        forall|j: int| k <= j < s.len() ==> s[j] == 95,
        k == 0 || s[k - 1] != 95,
    ensures
        trim_us_back(s) == s.take(k),
    decreases s.len(),
{
    if k == s.len() {
        if s.len() > 0 {
            assert(s.last() != 95);
        }
        assert(s.take(k) =~= s);
    } else {
        assert(forall|j: int| k <= j < s.drop_last().len() ==> s.drop_last()[j] == 95);
        if k > 0 {
            assert(s.drop_last()[k - 1] == s[k - 1]);
        }
        lemma_trim_us_back_at(s.drop_last(), k);
        assert(s.drop_last().take(k) =~= s.take(k));
    }
}

/// Normalise a free-form species name into a species identifier.
pub fn pokemon_id_from(v: &Vec<u8>) -> (r: Vec<u8>)
    ensures
        r@ == pokemon_id_spec(v@),
{
    let trimmed = trim_bytes(v);
    let mut mapped: Vec<u8> = Vec::new();
    let mut i: usize = 0;
    while i < trimmed.len()
        invariant
            i <= trimmed.len(),
            mapped@ == id_mapped(trimmed@.take(i as int)),
        decreases trimmed.len() - i,
    {
        let b = trimmed[i];
        let l: u8 = if 65 <= b && b <= 90 {
            b + 32
        } else {
            b
        };
        let mb: u8 = if (48 <= l && l <= 57) || (97 <= l && l <= 122) || l == 45 {
            l
        } else {
            95
        };
        mapped.push(mb);
        proof {
            assert(mapped@ =~= id_mapped(trimmed@.take(i + 1 as int)));
        }
        i += 1;
    }
    proof {
        assert(trimmed@.take(trimmed@.len() as int) =~= trimmed@);
    }
    let mut lo: usize = 0;
    while lo < mapped.len() && mapped[lo] == 95
        invariant
            lo <= mapped@.len(),
            forall|j: int| 0 <= j < lo ==> mapped@[j] == 95,
        decreases mapped.len() - lo,
    {
        lo += 1;
    }
    proof {
        lemma_trim_us_front_at(mapped@, lo as int);
    }
    if lo == mapped.len() {
        proof {
            assert(mapped@.skip(lo as int) =~= Seq::<u8>::empty());
            assert(trim_us_back(Seq::<u8>::empty()) =~= Seq::<u8>::empty());
            assert(collapse_dunder(Seq::<u8>::empty()) =~= Seq::<u8>::empty());
        }
        return Vec::new();
    }
    let mut hi: usize = mapped.len();
    while hi > lo && mapped[hi - 1] == 95
        invariant
            lo <= hi <= mapped@.len(),
            forall|j: int| hi <= j < mapped@.len() ==> mapped@[j] == 95,
        decreases hi,
    {
        hi -= 1;
    }
    proof {
        assert(mapped@[lo as int] != 95);
        assert(hi > lo);
        let tf = mapped@.skip(lo as int);
        assert(forall|j: int| hi - lo <= j < tf.len() ==> tf[j] == 95) by {
            assert(forall|j: int| hi - lo <= j < tf.len() ==> tf[j] == mapped@[lo + j]);
        }
        assert(tf[hi - lo - 1] == mapped@[hi - 1]);
        lemma_trim_us_back_at(tf, hi - lo);
        assert(tf.take(hi - lo) =~= mapped@.subrange(lo as int, hi as int));
    }
    let mid = copy_range(&mapped, lo, hi);
    let ghost mseq = mid@;
    let mut out: Vec<u8> = Vec::new();
    let mut k: usize = 0;
    proof {
        assert(mseq.skip(0) =~= mseq);
        assert(Seq::<u8>::empty() + collapse_dunder(mseq) =~= collapse_dunder(mseq));
    }
    while k < mid.len()
        invariant
            k <= mid@.len(),
            mseq == mid@,
            collapse_dunder(mseq) == out@ + collapse_dunder(mseq.skip(k as int)),
        decreases mid.len() - k,
    {
        let ghost restk = mseq.skip(k as int);
        proof {
            assert(restk[0] == mseq[k as int]);
            if restk.len() >= 2 {
                assert(restk[1] == mseq[k + 1]);
            }
        }
        if k + 1 < mid.len() && mid[k] == 95 && mid[k + 1] == 95 {
            out.push(95);
            proof {
                assert(restk.skip(2) =~= mseq.skip(k + 2 as int));
                assert(out@ + collapse_dunder(mseq.skip(k + 2 as int)) =~= out@.drop_last() + (
                seq![95u8] + collapse_dunder(mseq.skip(k + 2 as int))));
            }
            k += 2;
        } else {
            let b = mid[k];
            out.push(b);
            proof {
                assert(restk.skip(1) =~= mseq.skip(k + 1 as int));
                assert(out@ + collapse_dunder(mseq.skip(k + 1 as int)) =~= out@.drop_last() + (
                seq![b] + collapse_dunder(mseq.skip(k + 1 as int))));
            }
            k += 1;
        }
    }
    proof {
        assert(mseq.skip(mseq.len() as int) =~= Seq::<u8>::empty());
        assert(collapse_dunder(Seq::<u8>::empty()) =~= Seq::<u8>::empty());
        assert(out@ + Seq::<u8>::empty() =~= out@);
    }
    out
}

/// The stat key `hp` as bytes.
pub open spec fn word_hp() -> Seq<u8> {
    seq![104u8, 112u8]
}

/// The stat key `atk` as bytes.
pub open spec fn word_atk() -> Seq<u8> {
    seq![97u8, 116u8, 107u8]
}

/// The stat key `def` as bytes.
pub open spec fn word_def() -> Seq<u8> {
    seq![100u8, 101u8, 102u8]
}

/// The stat key `spa` as bytes.
pub open spec fn word_spa() -> Seq<u8> {
    seq![115u8, 112u8, 97u8]
}

/// The stat key `spd` as bytes.
pub open spec fn word_spd() -> Seq<u8> {
    seq![115u8, 112u8, 100u8]
}

/// The stat key `spe` as bytes.
pub open spec fn word_spe() -> Seq<u8> {
    seq![115u8, 112u8, 101u8]
}

/// The end of the digit run starting at `i`.
pub open spec fn digits_end(s: Seq<u8>, i: int) -> int
    decreases s.len() - i when 0 <= i <= s.len()
{
    if i >= s.len() || !is_digit(s[i]) {
        i
    } else {
        digits_end(s, i + 1)
    }
}

/// The end of the whitespace run starting at `i`.
pub open spec fn spaces_end(s: Seq<u8>, i: int) -> int
    decreases s.len() - i when 0 <= i <= s.len()
{
    if i >= s.len() || !is_space(s[i]) {
        i
    } else {
        spaces_end(s, i + 1)
    }
}

proof fn lemma_digits_end_props(s: Seq<u8>, i: int)
    requires
        0 <= i <= s.len(),
    ensures
        i <= digits_end(s, i) <= s.len(),
        forall|j: int| i <= j < digits_end(s, i) ==> is_digit(s[j]),
        digits_end(s, i) == s.len() || !is_digit(s[digits_end(s, i)]),
    decreases s.len() - i,
{
    if i < s.len() && is_digit(s[i]) {
        lemma_digits_end_props(s, i + 1);
    }
}

proof fn lemma_spaces_end_props(s: Seq<u8>, i: int)
    requires
        0 <= i <= s.len(),
    ensures
        i <= spaces_end(s, i) <= s.len(),
    decreases s.len() - i,
{
    if i < s.len() && is_space(s[i]) {
        lemma_spaces_end_props(s, i + 1);
    }
}

/// The stat named by one of the six short stat keys read at position `k`,
/// tried in the fixed order hp, atk, def, spa, spd, spe.
pub open spec fn stat_key_at(s: Seq<u8>, k: int) -> Option<crate::stats::Stat> {
    let rest = s.skip(k);
    if starts_with(rest, word_hp()) {
        Some(crate::stats::Stat::Hp)
    } else if starts_with(rest, word_atk()) {
        Some(crate::stats::Stat::Atk)
    } else if starts_with(rest, word_def()) {
        Some(crate::stats::Stat::Def)
    } else if starts_with(rest, word_spa()) {
        Some(crate::stats::Stat::SpAtk)
    } else if starts_with(rest, word_spd()) {
        Some(crate::stats::Stat::SpDef)
    } else if starts_with(rest, word_spe()) {
        Some(crate::stats::Stat::Spe)
    } else {
        None
    }
}

/// Whether an effort entry (digits, optional whitespace, then a stat key)
/// is read at position `i`.
pub open spec fn effort_match_at(s: Seq<u8>, i: int) -> bool {
    0 <= i < s.len() && is_digit(s[i]) && stat_key_at(s, spaces_end(s, digits_end(s, i)))
        is Some
}

/// The first position at or after `i` where an effort entry is read, or -1.
pub open spec fn first_effort_from(s: Seq<u8>, i: int) -> int
    decreases s.len() - i when 0 <= i <= s.len()
{
    if i >= s.len() {
        -1
    } else if effort_match_at(s, i) {
        i
    } else {
        first_effort_from(s, i + 1)
    }
}

proof fn lemma_first_effort_found(s: Seq<u8>, i: int)
    requires
        0 <= i <= s.len(),
    ensures
        first_effort_from(s, i) == -1 || (i <= first_effort_from(s, i) < s.len()
            && effort_match_at(s, first_effort_from(s, i))),
    decreases s.len() - i,
{
    if i < s.len() && !effort_match_at(s, i) {
        lemma_first_effort_found(s, i + 1);
    }
}

/// What an effort block captures: the first effort entry's stat and its
/// digit run's value, or nothing when the block holds no effort entry.
pub open spec fn block_capture(s: Seq<u8>) -> Option<(crate::stats::Stat, int)> {
    let i = first_effort_from(s, 0);
    if i < 0 {
        None
    } else {
        let de = digits_end(s, i);
        match stat_key_at(s, spaces_end(s, de)) {
            Some(st) => Some((st, digits_val(s.subrange(i, de)))),
            None => None,
        }
    }
}

/// The end of the digit run starting at `i`, executably.
fn scan_digits_end(v: &Vec<u8>, i: usize) -> (r: usize)
    requires
        i <= v@.len(),
    ensures
        r == digits_end(v@, i as int),
        i <= r <= v@.len(),
{
    let n = v.len();
    let mut k: usize = i;
    while k < n && 48 <= v[k] && v[k] <= 57
        invariant
            i <= k <= n,
            n == v@.len(),
            digits_end(v@, i as int) == digits_end(v@, k as int),
        decreases n - k,
    {
        k += 1;
    }
    k
}

/// The end of the whitespace run starting at `i`, executably.
fn scan_spaces_end(v: &Vec<u8>, i: usize) -> (r: usize)
    requires
        i <= v@.len(),
    ensures
        r == spaces_end(v@, i as int),
        i <= r <= v@.len(),
{
    let n = v.len();
    let mut k: usize = i;
    while k < n && is_space_byte(v[k])
        invariant
            i <= k <= n,
            n == v@.len(),
            spaces_end(v@, i as int) == spaces_end(v@, k as int),
        decreases n - k,
    {
        k += 1;
    }
    k
}

/// Whether the two given bytes are read at position `k`.
fn prefix2(v: &Vec<u8>, k: usize, a: u8, b: u8) -> (r: bool)
    requires
        k <= v@.len(),
    ensures
        r == starts_with(v@.skip(k as int), seq![a, b]),
{
    let n = v.len();
    if n - k >= 2 && v[k] == a && v[k + 1] == b {
        proof {
            assert(v@.skip(k as int).take(2) =~= seq![a, b]);
        }
        true
    } else {
        proof {
            let rest = v@.skip(k as int);
            if starts_with(rest, seq![a, b]) {
                assert(rest.take(2)[0] == seq![a, b][0]);
                assert(rest.take(2)[1] == seq![a, b][1]);
                assert(v@[k as int] == a && v@[k + 1] == b);
            }
        }
        false
    }
}

/// Whether the three given bytes are read at position `k`.
fn prefix3(v: &Vec<u8>, k: usize, a: u8, b: u8, c: u8) -> (r: bool)
    requires
        k <= v@.len(),
    ensures
        r == starts_with(v@.skip(k as int), seq![a, b, c]),
{
    let n = v.len();
    if n - k >= 3 && v[k] == a && v[k + 1] == b && v[k + 2] == c {
        proof {
            assert(v@.skip(k as int).take(3) =~= seq![a, b, c]);
        }
        true
    } else {
        proof {
            let rest = v@.skip(k as int);
            if starts_with(rest, seq![a, b, c]) {
                assert(rest.take(3)[0] == seq![a, b, c][0]);
                assert(rest.take(3)[1] == seq![a, b, c][1]);
                assert(rest.take(3)[2] == seq![a, b, c][2]);
                assert(v@[k as int] == a && v@[k + 1] == b && v@[k + 2] == c);
            }
        }
        false
    }
}

/// Whether the five given bytes are read at position `k`.
fn prefix5(v: &Vec<u8>, k: usize, a: u8, b: u8, c: u8, d: u8, e: u8) -> (r: bool)
    requires
        k <= v@.len(),
    ensures
        r == starts_with(v@.skip(k as int), seq![a, b, c, d, e]),
{
    let n = v.len();
    if n - k >= 5 && v[k] == a && v[k + 1] == b && v[k + 2] == c && v[k + 3] == d && v[k + 4]
        == e {
        proof {
            assert(v@.skip(k as int).take(5) =~= seq![a, b, c, d, e]);
        }
        true
    } else {
        proof {
            let rest = v@.skip(k as int);
            let w = seq![a, b, c, d, e];
            if starts_with(rest, w) {
                assert(rest.take(5)[0] == w[0]);
                assert(rest.take(5)[1] == w[1]);
                assert(rest.take(5)[2] == w[2]);
                assert(rest.take(5)[3] == w[3]);
                assert(rest.take(5)[4] == w[4]);
                assert(v@[k as int] == a && v@[k + 1] == b && v@[k + 2] == c && v@[k + 3] == d
                    && v@[k + 4] == e);
            }
        }
        false
    }
}

/// Whether the seven given bytes are read at position `k`.
fn prefix7(v: &Vec<u8>, k: usize, a: u8, b: u8, c: u8, d: u8, e: u8, f: u8, g: u8) -> (r: bool)
    requires
        k <= v@.len(),
    ensures
        r == starts_with(v@.skip(k as int), seq![a, b, c, d, e, f, g]),
{
    let n = v.len();
    if n - k >= 7 && v[k] == a && v[k + 1] == b && v[k + 2] == c && v[k + 3] == d && v[k + 4]
        == e && v[k + 5] == f && v[k + 6] == g {
        proof {
            assert(v@.skip(k as int).take(7) =~= seq![a, b, c, d, e, f, g]);
        }
        true
    } else {
        proof {
            let rest = v@.skip(k as int);
            let w = seq![a, b, c, d, e, f, g];
            if starts_with(rest, w) {
                assert(rest.take(7)[0] == w[0]);
                assert(rest.take(7)[1] == w[1]);
                assert(rest.take(7)[2] == w[2]);
                assert(rest.take(7)[3] == w[3]);
                assert(rest.take(7)[4] == w[4]);
                assert(rest.take(7)[5] == w[5]);
                assert(rest.take(7)[6] == w[6]);
                assert(v@[k as int] == a && v@[k + 1] == b && v@[k + 2] == c && v@[k + 3] == d
                    && v@[k + 4] == e && v@[k + 5] == f && v@[k + 6] == g);
            }
        }
        false
    }
}

/// The stat key read at position `k`, executably.
fn stat_key_at_exec(v: &Vec<u8>, k: usize) -> (r: Option<crate::stats::Stat>)
    requires
        k <= v@.len(),
    ensures
        r == stat_key_at(v@, k as int),
{
    if prefix2(v, k, 104, 112) {
        Some(crate::stats::Stat::Hp)
    } else if prefix3(v, k, 97, 116, 107) {
        Some(crate::stats::Stat::Atk)
    } else if prefix3(v, k, 100, 101, 102) {
        Some(crate::stats::Stat::Def)
    } else if prefix3(v, k, 115, 112, 97) {
        Some(crate::stats::Stat::SpAtk)
    } else if prefix3(v, k, 115, 112, 100) {
        Some(crate::stats::Stat::SpDef)
    } else if prefix3(v, k, 115, 112, 101) {
        Some(crate::stats::Stat::Spe)
    } else {
        None
    }
}

/// The first effort entry of `v`: its stat and value. `None` when no entry
/// is read or when the value exceeds the `i32` range.
fn capture_effort(v: &Vec<u8>) -> (r: Option<(crate::stats::Stat, i32)>)
    ensures
        match r {
            Some(c) => block_capture(v@) == Some((c.0, c.1 as int)),
            None => block_capture(v@) is None || (block_capture(v@) matches Some(c) && c.1
                > i32::MAX),
        },
{
    let n = v.len();
    let mut i: usize = 0;
    proof {
        assert(first_effort_from(v@, 0) == first_effort_from(v@, 0));
    }
    while i < n
        invariant
            i <= n,
            n == v@.len(),
            first_effort_from(v@, 0) == first_effort_from(v@, i as int),
        decreases n - i,
    {
        let b = v[i];
        if 48 <= b && b <= 57 {
            let de = scan_digits_end(v, i);
            let se = scan_spaces_end(v, de);
            match stat_key_at_exec(v, se) {
                Some(st) => {
                    proof {
                        assert(effort_match_at(v@, i as int));
                        assert(first_effort_from(v@, i as int) == i as int);
                        lemma_digits_end_props(v@, i as int);
                        assert(all_digits(v@.subrange(i as int, de as int))) by {
                            assert(forall|j: int|
                                0 <= j < de - i ==> v@.subrange(i as int, de as int)[j] == v@[i
                                    + j]);
                        }
                    }
                    match digits_to_i32(v, i, de) {
                        Some(val) => {
                            return Some((st, val));
                        },
                        None => {
                            return None;
                        },
                    }
                },
                None => {
                    proof {
                        assert(!effort_match_at(v@, i as int));
                    }
                },
            }
        } else {
            proof {
                assert(!effort_match_at(v@, i as int));
            }
        }
        i += 1;
    }
    proof {
        assert(first_effort_from(v@, i as int) == -1);
    }
    None
}

/// The failure reported when a team sheet cannot be interpreted; it carries
/// the fragment of input that failed.
#[derive(Debug)]
pub struct PokemonParseError(pub Vec<u8>);

/// A named nature, as a nature registry entry.
pub struct NatureEntry {
    pub name: Vec<u8>,
    pub nature: Nature,
}

/// The nature of the first registry entry named `name`.
pub open spec fn lookup_nature(ns: Seq<NatureEntry>, name: Seq<u8>) -> Option<Nature>
    decreases ns.len(),
{
    if ns.len() == 0 {
        None
    } else if ns[0].name@ == name {
        Some(ns[0].nature)
    } else {
        lookup_nature(ns.skip(1), name)
    }
}

/// The model of the first species registry entry with identifier `id`.
pub open spec fn lookup_species(ss: Seq<Species>, id: Seq<u8>) -> Option<SpeciesModel>
    decreases ss.len(),
{
    if ss.len() == 0 {
        None
    } else if ss[0].id@ == id {
        Some(ss[0]@)
    } else {
        lookup_species(ss.skip(1), id)
    }
}

/// The model of the first move registry entry with identifier `id`.
pub open spec fn lookup_move(ms: Seq<Move>, id: Seq<u8>) -> Option<MoveModel>
    decreases ms.len(),
{
    if ms.len() == 0 {
        None
    } else if ms[0].id@ == id {
        Some(ms[0]@)
    } else {
        lookup_move(ms.skip(1), id)
    }
}

fn find_nature(ns: &Vec<NatureEntry>, name: &Vec<u8>) -> (r: Option<Nature>)
    ensures
        r == lookup_nature(ns@, name@),
{
    let mut i: usize = 0;
    proof {
        assert(ns@.skip(0) =~= ns@);
    }
    while i < ns.len()
        invariant
            i <= ns@.len(),
            lookup_nature(ns@, name@) == lookup_nature(ns@.skip(i as int), name@),
        decreases ns.len() - i,
    {
        proof {
            assert(ns@.skip(i as int)[0] == ns@[i as int]);
            assert(ns@.skip(i as int).skip(1) =~= ns@.skip(i + 1 as int));
        }
        if bytes_equal(&ns[i].name, name) {
            return Some(ns[i].nature);
        }
        i += 1;
    }
    None
}

fn find_species(ss: &Vec<Species>, id: &Vec<u8>) -> (r: Option<Species>)
    ensures
        r matches Some(sp) ==> lookup_species(ss@, id@) == Some(sp@),
        r is None ==> lookup_species(ss@, id@) is None,
{
    let mut i: usize = 0;
    proof {
        assert(ss@.skip(0) =~= ss@);
    }
    while i < ss.len()
        invariant
            i <= ss@.len(),
            lookup_species(ss@, id@) == lookup_species(ss@.skip(i as int), id@),
        decreases ss.len() - i,
    {
        proof {
            assert(ss@.skip(i as int)[0] == ss@[i as int]);
            assert(ss@.skip(i as int).skip(1) =~= ss@.skip(i + 1 as int));
        }
        if bytes_equal(&ss[i].id, id) {
            return Some(ss[i].duplicate());
        }
        i += 1;
    }
    None
}

fn find_move(ms: &Vec<Move>, id: &Vec<u8>) -> (r: Option<Move>)
    ensures
        r matches Some(m) ==> lookup_move(ms@, id@) == Some(m@),
        r is None ==> lookup_move(ms@, id@) is None,
{
    let mut i: usize = 0;
    proof {
        assert(ms@.skip(0) =~= ms@);
    }
    while i < ms.len()
        invariant
            i <= ms@.len(),
            lookup_move(ms@, id@) == lookup_move(ms@.skip(i as int), id@),
        decreases ms.len() - i,
    {
        proof {
            assert(ms@.skip(i as int)[0] == ms@[i as int]);
            assert(ms@.skip(i as int).skip(1) =~= ms@.skip(i + 1 as int));
        }
        if bytes_equal(&ms[i].id, id) {
            return Some(ms[i].duplicate());
        }
        i += 1;
    }
    None
}

/// An effort-level map folded block by block: each block must hold an effort
/// entry whose value fits an `i32`, and later entries for the same stat
/// overwrite earlier ones.
pub open spec fn effort_fold(blocks: Seq<Seq<u8>>, m: Map<crate::stats::Stat, int>) -> Option<
    Map<crate::stats::Stat, int>,
>
    decreases blocks.len(),
{
    if blocks.len() == 0 {
        Some(m)
    } else {
        match block_capture(trim_spec(blocks[0])) {
            None => None,
            Some(c) => if c.1 > i32::MAX {
                None
            } else {
                effort_fold(blocks.skip(1), m.insert(c.0, c.1))
            },
        }
    }
}

/// The effort value recorded for `s`, or the default 10.
pub open spec fn stat_or_default(m: Map<crate::stats::Stat, int>, s: crate::stats::Stat) -> int {
    if m.contains_key(s) {
        m[s]
    } else {
        10
    }
}

/// The effort-level block of a folded map, defaulting every missing stat
/// to 10.
pub open spec fn effort_block_of(m: Map<crate::stats::Stat, int>) -> StatBlock {
    StatBlock {
        hp: stat_or_default(m, crate::stats::Stat::Hp) as i32,
        atk: stat_or_default(m, crate::stats::Stat::Atk) as i32,
        def: stat_or_default(m, crate::stats::Stat::Def) as i32,
        spatk: stat_or_default(m, crate::stats::Stat::SpAtk) as i32,
        spdef: stat_or_default(m, crate::stats::Stat::SpDef) as i32,
        spe: stat_or_default(m, crate::stats::Stat::Spe) as i32,
    }
}

/// What an effort-level description parses to: slash-separated blocks, each
/// holding one effort entry, folded into a stat block with default 10.
pub open spec fn parse_effort_spec(s: Seq<u8>) -> Option<StatBlock> {
    match effort_fold(split_slashes_spec(s), Map::<crate::stats::Stat, int>::empty()) {
        Some(m) => Some(effort_block_of(m)),
        None => None,
    }
}

/// `sb` with the entry for `st` set to `val`.
fn set_stat(sb: StatBlock, st: crate::stats::Stat, val: i32) -> (r: StatBlock)
    ensures
        forall|s2: crate::stats::Stat|
            crate::stats::stat_of(r, s2) == (if s2 == st {
                val as int
            } else {
                crate::stats::stat_of(sb, s2) as int
            }),
{
    match st {
        crate::stats::Stat::Hp => StatBlock { hp: val, ..sb },
        crate::stats::Stat::Atk => StatBlock { atk: val, ..sb },
        crate::stats::Stat::Def => StatBlock { def: val, ..sb },
        crate::stats::Stat::SpAtk => StatBlock { spatk: val, ..sb },
        crate::stats::Stat::SpDef => StatBlock { spdef: val, ..sb },
        crate::stats::Stat::Spe => StatBlock { spe: val, ..sb },
    }
}

/// Parse an effort-level description such as slash-separated entries of a
/// value and a stat key; stats not named keep the default effort of 10.
pub fn parse_effort_levels(v: &Vec<u8>) -> (r: Result<StatBlock, PokemonParseError>)
    ensures
        r matches Ok(sb) ==> parse_effort_spec(v@) == Some(sb),
        r is Err <==> parse_effort_spec(v@) is None,
{
    let blocks = split_at_slashes(v);
    let ghost bviews = crate::bytes::views_of(blocks@);
    let mut sb = StatBlock::all(10);
    let ghost mut m: Map<crate::stats::Stat, int> = Map::empty();
    let mut i: usize = 0;
    proof {
        assert(bviews.skip(0) =~= bviews);
    }
    while i < blocks.len()
        invariant
            i <= blocks@.len(),
            bviews == crate::bytes::views_of(blocks@),
            bviews == split_slashes_spec(v@),
            effort_fold(bviews, Map::<crate::stats::Stat, int>::empty()) == effort_fold(
                bviews.skip(i as int),
                m,
            ),
            forall|st: crate::stats::Stat| #[trigger] m.contains_key(st) ==> 0 <= m[st]
                <= i32::MAX,
            forall|st: crate::stats::Stat|
                crate::stats::stat_of(sb, st) == stat_or_default(m, st),
        decreases blocks.len() - i,
    {
        proof {
            assert(bviews.skip(i as int)[0] == bviews[i as int]);
            assert(bviews[i as int] == blocks@[i as int]@);
            assert(bviews.skip(i as int).skip(1) =~= bviews.skip(i + 1 as int));
        }
        let tb = trim_bytes(&blocks[i]);
        match capture_effort(&tb) {
            Some(c) => {
                let (st, val) = c;
                proof {
                    assert(block_capture(trim_spec(bviews[i as int])) == Some((st, val as int)));
                    let fi = first_effort_from(tb@, 0);
                    lemma_first_effort_found(tb@, 0);
                    assert(fi >= 0);
                    assert(0 <= fi < tb@.len());
                    let de = digits_end(tb@, fi);
                    lemma_digits_end_props(tb@, fi);
                    assert(all_digits(tb@.subrange(fi, de))) by {
                        assert(forall|j: int|
                            0 <= j < de - fi ==> tb@.subrange(fi, de)[j] == tb@[fi + j]);
                    }
                    lemma_digits_val_nonneg(tb@.subrange(fi, de));
                    assert(val as int >= 0);
                }
                sb = set_stat(sb, st, val);
                proof {
                    m = m.insert(st, val as int);
                }
            },
            None => {
                proof {
                    assert(effort_fold(bviews.skip(i as int), m) is None);
                    assert(parse_effort_spec(v@) is None);
                }
                return Err(PokemonParseError(tb));
            },
        }
        i += 1;
    }
    proof {
        assert(bviews.skip(bviews.len() as int) =~= Seq::<Seq<u8>>::empty());
        assert(effort_fold(Seq::<Seq<u8>>::empty(), m) == Some(m));
        assert(sb == effort_block_of(m)) by {
            assert(crate::stats::stat_of(sb, crate::stats::Stat::Hp) == stat_or_default(
                m,
                crate::stats::Stat::Hp,
            ));
            assert(crate::stats::stat_of(sb, crate::stats::Stat::Atk) == stat_or_default(
                m,
                crate::stats::Stat::Atk,
            ));
            assert(crate::stats::stat_of(sb, crate::stats::Stat::Def) == stat_or_default(
                m,
                crate::stats::Stat::Def,
            ));
            assert(crate::stats::stat_of(sb, crate::stats::Stat::SpAtk) == stat_or_default(
                m,
                crate::stats::Stat::SpAtk,
            ));
            assert(crate::stats::stat_of(sb, crate::stats::Stat::SpDef) == stat_or_default(
                m,
                crate::stats::Stat::SpDef,
            ));
            assert(crate::stats::stat_of(sb, crate::stats::Stat::Spe) == stat_or_default(
                m,
                crate::stats::Stat::Spe,
            ));
        }
    }
    Ok(sb)
}

/// The species part and optional nickname of a first line: with a last
/// `(` before a last `)`, the parenthesised part names the species and what
/// precedes the `(` is the nickname; a `(` after the last `)` is malformed;
/// otherwise the whole trimmed line names the species.
pub open spec fn nickname_species_spec(line: Seq<u8>) -> Option<(Seq<u8>, Option<Seq<u8>>)> {
    let lo = rfind(line, 40);
    let lc = rfind(line, 41);
    if lo > lc {
        None
    } else if lo >= 0 && lc >= 0 {
        Some((trim_spec(line.subrange(lo + 1, lc)), Some(trim_spec(line.take(lo)))))
    } else {
        Some((trim_spec(line), None))
    }
}

proof fn lemma_rfind_bounds(s: Seq<u8>, b: u8)
    ensures
        -1 <= rfind(s, b) < s.len(),
        rfind(s, b) >= 0 ==> s[rfind(s, b)] == b,
    decreases s.len(),
{
    if s.len() > 0 && s.last() != b {
        lemma_rfind_bounds(s.drop_last(), b);
        if rfind(s, b) >= 0 {
            assert(s.drop_last()[rfind(s, b)] == s[rfind(s, b)]);
        }
    }
}

proof fn lemma_find_sub_found(s: Seq<u8>, p: Seq<u8>, i: int)
    requires
        0 <= i <= s.len() + 1,
    ensures
        find_sub_from(s, p, i) == -1 || (i <= find_sub_from(s, p, i) && match_at(
            s,
            p,
            find_sub_from(s, p, i),
        )),
    decreases s.len() + 1 - i,
{
    if !(i < 0 || i + p.len() > s.len()) && !match_at(s, p, i) {
        lemma_find_sub_found(s, p, i + 1);
    }
}

/// Split a first line into its species part and optional nickname.
pub fn find_nickname_and_species(line: &Vec<u8>) -> (r: Result<
    (Vec<u8>, Option<Vec<u8>>),
    PokemonParseError,
>)
    ensures
        r matches Ok(p) ==> (nickname_species_spec(line@) matches Some(q) && p.0@ == q.0 && (match
        p.1 {
            Some(n) => q.1 == Some(n@),
            None => q.1 is None,
        })),
        r is Err <==> nickname_species_spec(line@) is None,
{
    proof {
        lemma_rfind_bounds(line@, 40);
        lemma_rfind_bounds(line@, 41);
    }
    let lo = rfind_byte(line, 40);
    let lc = rfind_byte(line, 41);
    match (lo, lc) {
        (Some(o), Some(c)) => {
            if o > c {
                Err(PokemonParseError(crate::bytes::copy_bytes(line)))
            } else {
                proof {
                    assert(line@[o as int] == 40);
                    assert(line@[c as int] == 41);
                    assert(o != c);
                }
                let inner = copy_range(line, o + 1, c);
                let species = trim_bytes(&inner);
                let before = copy_range(line, 0, o);
                let name = trim_bytes(&before);
                proof {
                    assert(inner@ =~= line@.subrange(o + 1 as int, c as int));
                    assert(before@ =~= line@.take(o as int));
                }
                Ok((species, Some(name)))
            }
        },
        (Some(_), None) => Err(PokemonParseError(crate::bytes::copy_bytes(line))),
        _ => {
            let t = trim_bytes(line);
            Ok((t, None))
        },
    }
}

/// `s` with every space replaced by an underscore.
pub open spec fn replace_spaces(s: Seq<u8>) -> Seq<u8> {
    s.map_values(
        |b: u8|
            if b == 32 {
                95u8
            } else {
                b
            },
    )
}

fn replace_spaces_exec(v: &Vec<u8>) -> (r: Vec<u8>)
    ensures
        r@ == replace_spaces(v@),
{
    let mut out: Vec<u8> = Vec::new();
    let mut i: usize = 0;
    while i < v.len()
        invariant
            i <= v.len(),
            out@ == replace_spaces(v@.take(i as int)),
        decreases v.len() - i,
    {
        let b = v[i];
        out.push(
            if b == 32 {
                95
            } else {
                b
            },
        );
        proof {
            assert(out@ =~= replace_spaces(v@.take(i + 1 as int)));
        }
        i += 1;
    }
    proof {
        assert(v@.take(v@.len() as int) =~= v@);
    }
    out
}

/// The prefix of a level line.
pub open spec fn level_prefix() -> Seq<u8> {
    seq![108u8, 101u8, 118u8, 101u8, 108u8, 58u8, 32u8]
}

/// The prefix of a shininess line.
pub open spec fn shiny_prefix() -> Seq<u8> {
    seq![115u8, 104u8, 105u8, 110u8, 121u8, 58u8, 32u8]
}

/// The suffix of a nature line.
pub open spec fn nature_suffix() -> Seq<u8> {
    seq![32u8, 110u8, 97u8, 116u8, 117u8, 114u8, 101u8]
}

/// The prefix of an effort-levels line.
pub open spec fn els_prefix() -> Seq<u8> {
    seq![101u8, 108u8, 115u8, 58u8, 32u8]
}

/// The prefix of a move line.
pub open spec fn dash_prefix() -> Seq<u8> {
    seq![45u8, 32u8]
}

/// The affirmative value of a shininess line.
pub open spec fn yes_word() -> Seq<u8> {
    seq![121u8, 101u8, 115u8]
}

/// What one lower-cased body line does to the entity under construction:
/// set the level, the shininess, the nature, or the effort levels, or add a
/// move; an unrecognised line changes nothing, and a recognised line whose
/// value cannot be resolved is an error.
pub open spec fn apply_line(
    pm: PokemonModel,
    line: Seq<u8>,
    moves: Seq<Move>,
    natures: Seq<NatureEntry>,
) -> Option<PokemonModel> {
    let low = lower_seq(line);
    if starts_with(low, level_prefix()) {
        match parse_u8_spec(low.skip(7)) {
            Some(l) => Some(PokemonModel { level: l, ..pm }),
            None => None,
        }
    } else if starts_with(low, shiny_prefix()) {
        Some(PokemonModel { is_shiny: low.skip(7) == yes_word(), ..pm })
    } else if find_sub_from(low, nature_suffix(), 0) >= 0 && find_sub_from(low, nature_suffix(), 0)
        + 7 == low.len() {
        match lookup_nature(natures, low.take(find_sub_from(low, nature_suffix(), 0))) {
            Some(nt) => Some(PokemonModel { nature: nt, ..pm }),
            None => None,
        }
    } else if starts_with(low, els_prefix()) {
        match parse_effort_spec(low.skip(5)) {
            Some(sb) => Some(PokemonModel { effort_levels: sb, ..pm }),
            None => None,
        }
    } else if starts_with(low, dash_prefix()) {
        match lookup_move(moves, replace_spaces(trim_spec(low.skip(2)))) {
            Some(m) => Some(crate::pokemon::add_move_model(pm, m)),
            None => None,
        }
    } else {
        Some(pm)
    }
}

/// The body lines applied in order; the first error wins.
pub open spec fn process_lines(
    pm: PokemonModel,
    ls: Seq<Seq<u8>>,
    moves: Seq<Move>,
    natures: Seq<NatureEntry>,
) -> Option<PokemonModel>
    decreases ls.len(),
{
    if ls.len() == 0 {
        Some(pm)
    } else {
        match apply_line(pm, ls[0], moves, natures) {
            None => None,
            Some(p2) => process_lines(p2, ls.skip(1), moves, natures),
        }
    }
}

/// What a whole team-sheet description parses to: the first line names the
/// species (with an optional nickname), the entity starts from the default
/// configuration, and every further line is applied in order.
pub open spec fn deserialize_spec(
    data: Seq<u8>,
    species: Seq<Species>,
    moves: Seq<Move>,
    natures: Seq<NatureEntry>,
) -> Option<PokemonModel> {
    let lines = split_lines_spec(data);
    if lines.len() == 0 {
        None
    } else {
        match nickname_species_spec(lines[0]) {
            None => None,
            Some(q) => {
                match lookup_species(species, pokemon_id_spec(q.0)) {
                    None => None,
                    Some(spm) => {
                        let pm0 = PokemonModel {
                            species: spm,
                            nickname: q.1,
                            is_shiny: false,
                            level: 100,
                            nature: (Nature {
                                increased: crate::stats::Stat::Spe,
                                decreased: crate::stats::Stat::Spe,
                            }),
                            effort_levels: (StatBlock {
                                hp: 10,
                                atk: 10,
                                def: 10,
                                spatk: 10,
                                spdef: 10,
                                spe: 10,
                            }),
                            moveset: Seq::<MoveModel>::empty(),
                        };
                        process_lines(pm0, lines.skip(1), moves, natures)
                    },
                }
            },
        }
    }
}

/// Parse a team-sheet description into a configured roster entity, resolving
/// names against the given registries. An error carries the input fragment
/// that failed.
pub fn deserialize_pokemon(
    data: &Vec<u8>,
    species_map: &Vec<Species>,
    move_map: &Vec<Move>,
    nature_map: &Vec<NatureEntry>,
) -> (r: Result<crate::pokemon::Pokemon, PokemonParseError>)
    ensures
        r matches Ok(p) ==> deserialize_spec(data@, species_map@, move_map@, nature_map@) == Some(
            p@,
        ),
        r is Err <==> deserialize_spec(data@, species_map@, move_map@, nature_map@) is None,
{
    let lines = split_lines(data);
    let ghost lviews = crate::bytes::views_of(lines@);
    if lines.len() == 0 {
        return Err(PokemonParseError(Vec::new()));
    }
    let first = match find_nickname_and_species(&lines[0]) {
        Ok(p) => p,
        Err(e) => {
            proof {
                assert(lviews[0] == lines@[0]@);
            }
            return Err(e);
        },
    };
    proof {
        assert(lviews[0] == lines@[0]@);
    }
    let (species_part, nick) = first;
    let sid = pokemon_id_from(&species_part);
    let sp = match find_species(species_map, &sid) {
        Some(sp) => sp,
        None => {
            return Err(PokemonParseError(sid));
        },
    };
    let mut p = crate::pokemon::Pokemon::new(sp).nickname(nick);
    proof {
        assert(p@.species == lookup_species(species_map@, sid@).unwrap());
        assert(p@.moveset =~= Seq::<MoveModel>::empty());
        assert(p@.effort_levels == (StatBlock {
            hp: 10,
            atk: 10,
            def: 10,
            spatk: 10,
            spdef: 10,
            spe: 10,
        })) by {
            assert(crate::stats::stat_of(p@.effort_levels, crate::stats::Stat::Hp) == 10);
            assert(crate::stats::stat_of(p@.effort_levels, crate::stats::Stat::Atk) == 10);
            assert(crate::stats::stat_of(p@.effort_levels, crate::stats::Stat::Def) == 10);
            assert(crate::stats::stat_of(p@.effort_levels, crate::stats::Stat::SpAtk) == 10);
            assert(crate::stats::stat_of(p@.effort_levels, crate::stats::Stat::SpDef) == 10);
            assert(crate::stats::stat_of(p@.effort_levels, crate::stats::Stat::Spe) == 10);
        }
    }
    let mut i: usize = 1;
    proof {
        assert(deserialize_spec(data@, species_map@, move_map@, nature_map@) == process_lines(
            p@,
            lviews.skip(1),
            move_map@,
            nature_map@,
        ));
    }
    while i < lines.len()
        invariant
            1 <= i <= lines@.len(),
            lviews == crate::bytes::views_of(lines@),
            deserialize_spec(data@, species_map@, move_map@, nature_map@) == process_lines(
                p@,
                lviews.skip(i as int),
                move_map@,
                nature_map@,
            ),
        decreases lines.len() - i,
    {
        proof {
            assert(lviews.skip(i as int)[0] == lviews[i as int]);
            assert(lviews[i as int] == lines@[i as int]@);
            assert(lviews.skip(i as int).skip(1) =~= lviews.skip(i + 1 as int));
        }
        let ghost pm_before = p@;
        let ghost line_v = lviews[i as int];
        let low = ascii_lower(&lines[i]);
        let n = low.len();
        proof {
            assert(low@.skip(0) =~= low@);
        }
        if prefix7(&low, 0, 108, 101, 118, 101, 108, 58, 32) {
            let rest = copy_range(&low, 7, n);
            proof {
                assert(rest@ =~= low@.skip(7));
            }
            match parse_u8_bytes(&rest) {
                Some(l) => {
                    p = p.level(l);
                },
                None => {
                    proof {
                        assert(apply_line(pm_before, line_v, move_map@, nature_map@) is None);
                    }
                    return Err(PokemonParseError(rest));
                },
            }
        } else if prefix7(&low, 0, 115, 104, 105, 110, 121, 58, 32) {
            let rest = copy_range(&low, 7, n);
            proof {
                assert(rest@ =~= low@.skip(7));
            }
            let flag = rest.len() == 3 && prefix3(&rest, 0, 121, 101, 115);
            proof {
                assert(rest@.skip(0) =~= rest@);
                if flag {
                    assert(rest@.take(3) =~= rest@);
                    assert(rest@ == yes_word());
                } else {
                    if rest@ == yes_word() {
                        assert(rest@.len() == 3);
                        assert(rest@.take(3) =~= rest@);
                        assert(starts_with(rest@, yes_word()));
                    }
                }
            }
            p = p.set_shiny(flag);
        } else if nature_line_end(&low) {
            let ghost mpos = find_sub_from(low@, nature_suffix(), 0);
            let pat = nature_pattern();
            let mp = match find_sub(&low, &pat) {
                Some(m) => m,
                None => {
                    proof {
                        assert(false);
                    }
                    0
                },
            };
            let name = copy_range(&low, 0, mp);
            proof {
                assert(name@ =~= low@.take(mpos));
            }
            match find_nature(nature_map, &name) {
                Some(nt) => {
                    p = p.nature(nt);
                },
                None => {
                    proof {
                        assert(apply_line(pm_before, line_v, move_map@, nature_map@) is None);
                    }
                    return Err(PokemonParseError(name));
                },
            }
        } else if prefix5(&low, 0, 101, 108, 115, 58, 32) {
            let rest = copy_range(&low, 5, n);
            proof {
                assert(rest@ =~= low@.skip(5));
            }
            match parse_effort_levels(&rest) {
                Ok(sb) => {
                    p = p.effort_levels(sb);
                },
                Err(e) => {
                    proof {
                        assert(apply_line(pm_before, line_v, move_map@, nature_map@) is None);
                    }
                    return Err(e);
                },
            }
        } else if prefix2(&low, 0, 45, 32) {
            let rest = copy_range(&low, 2, n);
            proof {
                assert(rest@ =~= low@.skip(2));
            }
            let t = trim_bytes(&rest);
            let mid = replace_spaces_exec(&t);
            match find_move(move_map, &mid) {
                Some(mv) => {
                    p = p.add_move(mv);
                },
                None => {
                    proof {
                        assert(apply_line(pm_before, line_v, move_map@, nature_map@) is None);
                    }
                    return Err(PokemonParseError(mid));
                },
            }
        }
        proof {
            assert(apply_line(pm_before, line_v, move_map@, nature_map@) == Some(p@));
        }
        i += 1;
    }
    proof {
        assert(lviews.skip(lines@.len() as int) =~= Seq::<Seq<u8>>::empty());
    }
    Ok(p)
}

/// Whether the lower-cased line ends, at its first occurrence, with the
/// nature suffix.
fn nature_line_end(low: &Vec<u8>) -> (r: bool)
    ensures
        r == (find_sub_from(low@, nature_suffix(), 0) >= 0 && find_sub_from(
            low@,
            nature_suffix(),
            0,
        ) + 7 == low@.len()),
{
    let pat = nature_pattern();
    match find_sub(low, &pat) {
        Some(m) => {
            let n = low.len();
            proof {
                lemma_find_sub_found(low@, pat@, 0);
                assert(match_at(low@, pat@, m as int));
                assert(m + 7 <= n);
            }
            m + 7 == n
        },
        None => false,
    }
}

/// The nature suffix as a byte vector.
fn nature_pattern() -> (r: Vec<u8>)
    ensures
        r@ == nature_suffix(),
{
    let mut v: Vec<u8> = Vec::new();
    v.push(32);
    v.push(110);
    v.push(97);
    v.push(116);
    v.push(117);
    v.push(114);
    v.push(101);
    proof {
        assert(v@ =~= nature_suffix());
    }
    v
}

/// The stat name `attack` as bytes.
pub open spec fn word_attack() -> Seq<u8> {
    seq![97u8, 116u8, 116u8, 97u8, 99u8, 107u8]
}

/// The stat name `defense` as bytes.
pub open spec fn word_defense() -> Seq<u8> {
    seq![100u8, 101u8, 102u8, 101u8, 110u8, 115u8, 101u8]
}

/// The stat name `defence` as bytes.
pub open spec fn word_defence() -> Seq<u8> {
    seq![100u8, 101u8, 102u8, 101u8, 110u8, 99u8, 101u8]
}

/// The stat name `spatk` as bytes.
pub open spec fn word_spatk() -> Seq<u8> {
    seq![115u8, 112u8, 97u8, 116u8, 107u8]
}

/// The stat name `special attack` as bytes.
pub open spec fn word_special_attack() -> Seq<u8> {
    seq![115u8, 112u8, 101u8, 99u8, 105u8, 97u8, 108u8, 32u8, 97u8, 116u8, 116u8, 97u8, 99u8, 107u8]
}

/// The stat name `sp attack` as bytes.
pub open spec fn word_sp_attack() -> Seq<u8> {
    seq![115u8, 112u8, 32u8, 97u8, 116u8, 116u8, 97u8, 99u8, 107u8]
}

/// The stat name `spdef` as bytes.
pub open spec fn word_spdef() -> Seq<u8> {
    seq![115u8, 112u8, 100u8, 101u8, 102u8]
}

/// The stat name `special defense` as bytes.
pub open spec fn word_special_defense() -> Seq<u8> {
    seq![115u8, 112u8, 101u8, 99u8, 105u8, 97u8, 108u8, 32u8, 100u8, 101u8, 102u8, 101u8, 110u8, 115u8, 101u8]
}

/// The stat name `sp defense` as bytes.
pub open spec fn word_sp_defense() -> Seq<u8> {
    seq![115u8, 112u8, 32u8, 100u8, 101u8, 102u8, 101u8, 110u8, 115u8, 101u8]
}

/// The stat name `special defence` as bytes.
pub open spec fn word_special_defence() -> Seq<u8> {
    seq![115u8, 112u8, 101u8, 99u8, 105u8, 97u8, 108u8, 32u8, 100u8, 101u8, 102u8, 101u8, 110u8, 99u8, 101u8]
}

/// The stat name `sp defence` as bytes.
pub open spec fn word_sp_defence() -> Seq<u8> {
    seq![115u8, 112u8, 32u8, 100u8, 101u8, 102u8, 101u8, 110u8, 99u8, 101u8]
}

/// The stat name `speed` as bytes.
pub open spec fn word_speed() -> Seq<u8> {
    seq![115u8, 112u8, 101u8, 101u8, 100u8]
}

/// The stat named by one of its accepted names: the short key of each stat
/// or a long-form alias of it.
pub open spec fn stat_word(s: Seq<u8>) -> Option<crate::stats::Stat> {
    if s == word_hp() {
        Some(crate::stats::Stat::Hp)
    } else if s == word_atk() {
        Some(crate::stats::Stat::Atk)
    } else if s == word_attack() {
        Some(crate::stats::Stat::Atk)
    } else if s == word_def() {
        Some(crate::stats::Stat::Def)
    } else if s == word_defense() {
        Some(crate::stats::Stat::Def)
    } else if s == word_defence() {
        Some(crate::stats::Stat::Def)
    } else if s == word_spa() {
        Some(crate::stats::Stat::SpAtk)
    } else if s == word_spatk() {
        Some(crate::stats::Stat::SpAtk)
    } else if s == word_special_attack() {
        Some(crate::stats::Stat::SpAtk)
    } else if s == word_sp_attack() {
        Some(crate::stats::Stat::SpAtk)
    } else if s == word_spd() {
        Some(crate::stats::Stat::SpDef)
    } else if s == word_spdef() {
        Some(crate::stats::Stat::SpDef)
    } else if s == word_special_defense() {
        Some(crate::stats::Stat::SpDef)
    } else if s == word_sp_defense() {
        Some(crate::stats::Stat::SpDef)
    } else if s == word_special_defence() {
        Some(crate::stats::Stat::SpDef)
    } else if s == word_sp_defence() {
        Some(crate::stats::Stat::SpDef)
    } else if s == word_spe() {
        Some(crate::stats::Stat::Spe)
    } else if s == word_speed() {
        Some(crate::stats::Stat::Spe)
    } else {
        None
    }
}

/// Read a stat from any of its accepted names, case-insensitively: the
/// short key of each stat or a long-form alias such as a full word or a
/// spelled-out special-stat name.
pub fn stat_from_bytes(v: &Vec<u8>) -> (r: Result<crate::stats::Stat, crate::stats::ParseStatError>)
    ensures
        r matches Ok(st) ==> stat_word(lower_seq(v@)) == Some(st),
        r is Err <==> stat_word(lower_seq(v@)) is None,
{
    let low = ascii_lower(v);
    let mut w: Vec<u8> = Vec::new();
    w.push(104);
    w.push(112);
    proof {
        assert(w@ =~= word_hp());
    }
    if bytes_equal(&low, &w) {
        return Ok(crate::stats::Stat::Hp);
    }
    let mut w: Vec<u8> = Vec::new();
    w.push(97);
    w.push(116);
    w.push(107);
    proof {
        assert(w@ =~= word_atk());
    }
    if bytes_equal(&low, &w) {
        return Ok(crate::stats::Stat::Atk);
    }
    let mut w: Vec<u8> = Vec::new();
    w.push(97);
    w.push(116);
    w.push(116);
    w.push(97);
    w.push(99);
    w.push(107);
    proof {
        assert(w@ =~= word_attack());
    }
    if bytes_equal(&low, &w) {
        return Ok(crate::stats::Stat::Atk);
    }
    let mut w: Vec<u8> = Vec::new();
    w.push(100);
    w.push(101);
    w.push(102);
    proof {
        assert(w@ =~= word_def());
    }
    if bytes_equal(&low, &w) {
        return Ok(crate::stats::Stat::Def);
    }
    let mut w: Vec<u8> = Vec::new();
    w.push(100);
    w.push(101);
    w.push(102);
    w.push(101);
    w.push(110);
    w.push(115);
    w.push(101);
    proof {
        assert(w@ =~= word_defense());
    }
    if bytes_equal(&low, &w) {
        return Ok(crate::stats::Stat::Def);
    }
    let mut w: Vec<u8> = Vec::new();
    w.push(100);
    w.push(101);
    w.push(102);
    w.push(101);
    w.push(110);
    w.push(99);
    w.push(101);
    proof {
        assert(w@ =~= word_defence());
    }
    if bytes_equal(&low, &w) {
        return Ok(crate::stats::Stat::Def);
    }
    let mut w: Vec<u8> = Vec::new();
    w.push(115);
    w.push(112);
    w.push(97);
    proof {
        assert(w@ =~= word_spa());
    }
    if bytes_equal(&low, &w) {
        return Ok(crate::stats::Stat::SpAtk);
    }
    let mut w: Vec<u8> = Vec::new();
    w.push(115);
    w.push(112);
    w.push(97);
    w.push(116);
    w.push(107);
    proof {
        assert(w@ =~= word_spatk());
    }
    if bytes_equal(&low, &w) {
        return Ok(crate::stats::Stat::SpAtk);
    }
    let mut w: Vec<u8> = Vec::new();
    w.push(115);
    w.push(112);
    w.push(101);
    w.push(99);
    w.push(105);
    w.push(97);
    w.push(108);
    w.push(32);
    w.push(97);
    w.push(116);
    w.push(116);
    w.push(97);
    w.push(99);
    w.push(107);
    proof {
        assert(w@ =~= word_special_attack());
    }
    if bytes_equal(&low, &w) {
        return Ok(crate::stats::Stat::SpAtk);
    }
    let mut w: Vec<u8> = Vec::new();
    w.push(115);
    w.push(112);
    w.push(32);
    w.push(97);
    w.push(116);
    w.push(116);
    w.push(97);
    w.push(99);
    w.push(107);
    proof {
        assert(w@ =~= word_sp_attack());
    }
    if bytes_equal(&low, &w) {
        return Ok(crate::stats::Stat::SpAtk);
    }
    let mut w: Vec<u8> = Vec::new();
    w.push(115);
    w.push(112);
    w.push(100);
    proof {
        assert(w@ =~= word_spd());
    }
    if bytes_equal(&low, &w) {
        return Ok(crate::stats::Stat::SpDef);
    }
    let mut w: Vec<u8> = Vec::new();
    w.push(115);
    w.push(112);
    w.push(100);
    w.push(101);
    w.push(102);
    proof {
        assert(w@ =~= word_spdef());
    }
    if bytes_equal(&low, &w) {
        return Ok(crate::stats::Stat::SpDef);
    }
    let mut w: Vec<u8> = Vec::new();
    w.push(115);
    w.push(112);
    w.push(101);
    w.push(99);
    w.push(105);
    w.push(97);
    w.push(108);
    w.push(32);
    w.push(100);
    w.push(101);
    w.push(102);
    w.push(101);
    w.push(110);
    w.push(115);
    w.push(101);
    proof {
        assert(w@ =~= word_special_defense());
    }
    if bytes_equal(&low, &w) {
        return Ok(crate::stats::Stat::SpDef);
    }
    let mut w: Vec<u8> = Vec::new();
    w.push(115);
    w.push(112);
    w.push(32);
    w.push(100);
    w.push(101);
    w.push(102);
    w.push(101);
    w.push(110);
    w.push(115);
    w.push(101);
    proof {
        assert(w@ =~= word_sp_defense());
    }
    if bytes_equal(&low, &w) {
        return Ok(crate::stats::Stat::SpDef);
    }
    let mut w: Vec<u8> = Vec::new();
    w.push(115);
    w.push(112);
    w.push(101);
    w.push(99);
    w.push(105);
    w.push(97);
    w.push(108);
    w.push(32);
    w.push(100);
    w.push(101);
    w.push(102);
    w.push(101);
    w.push(110);
    w.push(99);
    w.push(101);
    proof {
        assert(w@ =~= word_special_defence());
    }
    if bytes_equal(&low, &w) {
        return Ok(crate::stats::Stat::SpDef);
    }
    let mut w: Vec<u8> = Vec::new();
    w.push(115);
    w.push(112);
    w.push(32);
    w.push(100);
    w.push(101);
    w.push(102);
    w.push(101);
    w.push(110);
    w.push(99);
    w.push(101);
    proof {
        assert(w@ =~= word_sp_defence());
    }
    if bytes_equal(&low, &w) {
        return Ok(crate::stats::Stat::SpDef);
    }
    let mut w: Vec<u8> = Vec::new();
    w.push(115);
    w.push(112);
    w.push(101);
    proof {
        assert(w@ =~= word_spe());
    }
    if bytes_equal(&low, &w) {
        return Ok(crate::stats::Stat::Spe);
    }
    let mut w: Vec<u8> = Vec::new();
    w.push(115);
    w.push(112);
    w.push(101);
    w.push(101);
    w.push(100);
    proof {
        assert(w@ =~= word_speed());
    }
    if bytes_equal(&low, &w) {
        return Ok(crate::stats::Stat::Spe);
    }
    Err(crate::stats::ParseStatError)
}

} // verus!
