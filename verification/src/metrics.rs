//! The metrics engine: Hamming, Levenshtein and Jaro distances over
//! character sequences.
//!
//! Every score is returned exactly. Hamming and Levenshtein distances are
//! rationals in `[0, 1]`, returned as a [`Ratio`]; the Jaro distance is
//! returned as its integer components (a [`JaroScore`]), from which the exact
//! rational in `[0, 1]` is obtained with [`jaro_ratio`]. When both inputs are
//! empty the naive formulas would divide by zero; the distance is defined to
//! be `0` (two empty strings are identical), never a runtime fault.

use vstd::prelude::*;
use vstd::string::StrSliceExecFns;

verus! {

/// An exact score `num / den`, with `0 <= num <= den` and `den > 0`,
/// so the value always lies in `[0, 1]`.
#[derive(Clone, Copy, PartialEq, Eq, Structural, Debug)]
pub struct Ratio {
    pub num: u64,
    pub den: u64,
}

impl Ratio {
    /// The score is a well-formed fraction in `[0, 1]`.
    pub open spec fn wf(self) -> bool {
        self.den > 0 && self.num <= self.den
    }
}

/// The length of the longer of the two sequences.
pub open spec fn len_max(s: Seq<char>, t: Seq<char>) -> nat {
    if s.len() >= t.len() {
        s.len()
    } else {
        t.len()
    }
}

/// The length of the shorter of the two sequences.
pub open spec fn len_min(s: Seq<char>, t: Seq<char>) -> nat {
    if s.len() <= t.len() {
        s.len()
    } else {
        t.len()
    }
}

/// How many of the first `n` positions hold different characters in `s` and `t`.
pub open spec fn mismatches_upto(s: Seq<char>, t: Seq<char>, n: nat) -> nat
    decreases n,
{
    if n == 0 {
        0
    } else {
        mismatches_upto(s, t, (n - 1) as nat) + (if s[n - 1] != t[n - 1] {
            1nat
        } else {
            0nat
        })
    }
}

/// Numerator of the generalized Hamming distance: the length gap counts as
/// pure mismatch, plus the mismatches over the zipped common prefix.
pub open spec fn hamming_numer(s: Seq<char>, t: Seq<char>) -> nat {
    ((len_max(s, t) - len_min(s, t)) as nat) + mismatches_upto(s, t, len_min(s, t))
}

/// A sequence never mismatches itself: the Hamming numerator of `(s, s)` is zero.
pub proof fn lemma_hamming_identity(s: Seq<char>)
    ensures
        hamming_numer(s, s) == 0,
{
    lemma_mismatches_upto_zero(s, s.len());
}

proof fn lemma_mismatches_upto_zero(s: Seq<char>, n: nat)
    requires
        n <= s.len(),
    ensures
        mismatches_upto(s, s, n) == 0,
    decreases n,
{
    if n > 0 {
        lemma_mismatches_upto_zero(s, (n - 1) as nat);
    }
}

/// The Hamming distance is symmetric in its two arguments.
pub proof fn lemma_hamming_symmetric(s: Seq<char>, t: Seq<char>)
    ensures
        hamming_numer(s, t) == hamming_numer(t, s),
        len_max(s, t) == len_max(t, s),
{
    lemma_mismatches_upto_symmetric(s, t, len_min(s, t));
}

proof fn lemma_mismatches_upto_symmetric(s: Seq<char>, t: Seq<char>, n: nat)
    ensures
        mismatches_upto(s, t, n) == mismatches_upto(t, s, n),
    decreases n,
{
    if n > 0 {
        lemma_mismatches_upto_symmetric(s, t, (n - 1) as nat);
    }
}

/// The smallest of three naturals.
pub open spec fn spec_min3(a: nat, b: nat, c: nat) -> nat {
    if a <= b && a <= c {
        a
    } else if b <= c {
        b
    } else {
        c
    }
}

/// Edit distance between `s` and `t` with unit-cost insert, delete and
/// substitute, by recursive decomposition on the leading characters.
pub open spec fn lev(s: Seq<char>, t: Seq<char>) -> nat
    decreases s.len() + t.len(),
{
    if t.len() == 0 {
        s.len()
    } else if s.len() == 0 {
        t.len()
    } else if s[0] == t[0] {
        lev(s.skip(1), t.skip(1))
    } else {
        1 + spec_min3(lev(s.skip(1), t), lev(s, t.skip(1)), lev(s.skip(1), t.skip(1)))
    }
}

/// The edit distance never exceeds the longer length: substituting the whole
/// common prefix and inserting or deleting the rest always suffices.
pub proof fn lemma_lev_le_max(s: Seq<char>, t: Seq<char>)
    ensures
        lev(s, t) <= len_max(s, t),
    decreases s.len() + t.len(),
{
    if s.len() == 0 || t.len() == 0 {
    } else {
        lemma_lev_le_max(s.skip(1), t.skip(1));
    }
}

/// A sequence has edit distance zero to itself.
pub proof fn lemma_lev_identity(s: Seq<char>)
    ensures
        lev(s, s) == 0,
    decreases s.len(),
{
    if s.len() > 0 {
        lemma_lev_identity(s.skip(1));
    }
}

/// The edit distance is symmetric in its two arguments.
pub proof fn lemma_lev_symmetric(s: Seq<char>, t: Seq<char>)
    ensures
        lev(s, t) == lev(t, s),
    decreases s.len() + t.len(),
{
    if s.len() == 0 || t.len() == 0 {
    } else if s[0] == t[0] {
        lemma_lev_symmetric(s.skip(1), t.skip(1));
    } else {
        lemma_lev_symmetric(s.skip(1), t);
        lemma_lev_symmetric(s, t.skip(1));
        lemma_lev_symmetric(s.skip(1), t.skip(1));
    }
}

/// Cell `(i, j)` of a dense table stored row by row with `cols` columns.
pub open spec fn memo_at(m: Seq<Option<usize>>, cols: int, i: int, j: int) -> Option<usize> {
    m[i * cols + j]
}

/// The memo table is well-formed for the inputs `s` and `t`: it is the dense
/// `(s.len() + 1) x (t.len() + 1)` table keyed by suffix-offset pairs, and
/// every filled cell `(i, j)` holds exactly the edit distance of the suffixes
/// of `s` and `t` that start at `i` and `j`.
pub open spec fn memo_wf(m: Seq<Option<usize>>, s: Seq<char>, t: Seq<char>) -> bool {
    &&& m.len() == (s.len() + 1) * (t.len() + 1)
    &&& forall|i: int, j: int|
        0 <= i <= s.len() && 0 <= j <= t.len() && (#[trigger] memo_at(
            m,
            t.len() as int + 1,
            i,
            j,
        )).is_some() ==> memo_at(m, t.len() as int + 1, i, j).unwrap() == lev(s.skip(i), t.skip(j))
}

proof fn lemma_flat_index_in_range(rows: int, cols: int, i: int, j: int)
    requires
        cols > 0,
        0 <= i < rows,
        0 <= j < cols,
    ensures
        0 <= i * cols + j < rows * cols,
{
    assert(i * cols + j < rows * cols) by (nonlinear_arith)
        requires
            0 <= i < rows,
            0 <= j < cols,
            cols > 0,
    ;
    assert(0 <= i * cols + j) by (nonlinear_arith)
        requires
            0 <= i,
            0 <= j,
            cols > 0,
    ;
}

proof fn lemma_flat_index_injective(cols: int, i1: int, j1: int, i2: int, j2: int)
    requires
        cols > 0,
        0 <= j1 < cols,
        0 <= j2 < cols,
        i1 * cols + j1 == i2 * cols + j2,
    ensures
        i1 == i2,
        j1 == j2,
{
    if i1 < i2 {
        assert(i1 * cols + j1 < i2 * cols + j2) by (nonlinear_arith)
            requires
                i1 < i2,
                cols > 0,
                0 <= j1 < cols,
                0 <= j2,
        ;
    }
    if i2 < i1 {
        assert(i2 * cols + j2 < i1 * cols + j1) by (nonlinear_arith)
            requires
                i2 < i1,
                cols > 0,
                0 <= j2 < cols,
                0 <= j1,
        ;
    }
}

/// Edit distance of the suffixes of `str1` and `str2` that start at `pos1`
/// and `pos2`, by recursion on the leading characters, consulting and filling
/// the dense suffix-pair memo table through [`levenshtein_get_or_calculate`].
pub fn levenshtein_distance_with_memo(
    str1: &Vec<char>,
    str2: &Vec<char>,
    pos1: usize,
    pos2: usize,
    memo: &mut Vec<Option<usize>>,
) -> (d: usize)
    requires
        pos1 <= str1@.len(),
        pos2 <= str2@.len(),
        memo_wf(old(memo)@, str1@, str2@),
    ensures
        memo_wf(final(memo)@, str1@, str2@),
        d == lev(str1@.skip(pos1 as int), str2@.skip(pos2 as int)),
    decreases (str1@.len() - pos1) + (str2@.len() - pos2), 0int,
{
    if pos2 == str2.len() {
        str1.len() - pos1
    } else if pos1 == str1.len() {
        str2.len() - pos2
    } else if str1[pos1] == str2[pos2] {
        proof {
            assert(str1@.skip(pos1 as int).skip(1) =~= str1@.skip(pos1 as int + 1));
            assert(str2@.skip(pos2 as int).skip(1) =~= str2@.skip(pos2 as int + 1));
        }
        levenshtein_get_or_calculate(str1, str2, pos1 + 1, pos2 + 1, memo)
    } else {
        proof {
            assert(str1@.skip(pos1 as int).skip(1) =~= str1@.skip(pos1 as int + 1));
            assert(str2@.skip(pos2 as int).skip(1) =~= str2@.skip(pos2 as int + 1));
        }
        let del = levenshtein_get_or_calculate(str1, str2, pos1 + 1, pos2, memo);
        let ins = levenshtein_get_or_calculate(str1, str2, pos1, pos2 + 1, memo);
        let sub = levenshtein_get_or_calculate(str1, str2, pos1 + 1, pos2 + 1, memo);
        proof {
            lemma_lev_le_max(str1@.skip(pos1 as int + 1), str2@.skip(pos2 as int + 1));
        }
        let low: usize = if del <= ins {
            del
        } else {
            ins
        };
        let low: usize = if low <= sub {
            low
        } else {
            sub
        };
        1 + low
    }
}

/// Memo lookup for the suffix pair `(pos1, pos2)`: returns the cached edit
/// distance if the cell is filled — leaving the table untouched — and
/// otherwise computes it through [`levenshtein_distance_with_memo`] and fills
/// the cell, so the queried cell always holds the result afterwards.
pub fn levenshtein_get_or_calculate(
    str1: &Vec<char>,
    str2: &Vec<char>,
    pos1: usize,
    pos2: usize,
    memo: &mut Vec<Option<usize>>,
) -> (d: usize)
    requires
        pos1 <= str1@.len(),
        pos2 <= str2@.len(),
        memo_wf(old(memo)@, str1@, str2@),
    ensures
        memo_wf(final(memo)@, str1@, str2@),
        d == lev(str1@.skip(pos1 as int), str2@.skip(pos2 as int)),
        memo_at(final(memo)@, str2@.len() as int + 1, pos1 as int, pos2 as int) == Some(d),
        memo_at(old(memo)@, str2@.len() as int + 1, pos1 as int, pos2 as int).is_some()
            ==> final(memo)@ == old(memo)@,
    decreases (str1@.len() - pos1) + (str2@.len() - pos2), 1int,
{
    let table_len: usize = memo.len();
    proof {
        assert((str1@.len() + 1) * (str2@.len() + 1) >= str2@.len() + 1) by (nonlinear_arith)
            requires
                str1@.len() >= 0,
                str2@.len() >= 0,
        ;
        lemma_flat_index_in_range(
            str1@.len() as int + 1,
            str2@.len() as int + 1,
            pos1 as int,
            pos2 as int,
        );
    }
    let cols: usize = str2.len() + 1;
    let idx: usize = pos1 * cols + pos2;
    if let Some(cached) = memo[idx] {
        proof {
            assert(memo_at(memo@, cols as int, pos1 as int, pos2 as int) == memo@[idx as int]);
        }
        cached
    } else {
        let d = levenshtein_distance_with_memo(str1, str2, pos1, pos2, memo);
        let ghost pre = memo@;
        memo[idx] = Some(d);
        proof {
            assert(memo@ == pre.update(idx as int, Some(d)));
            assert forall|i: int, j: int|
                0 <= i <= str1@.len() && 0 <= j <= str2@.len() && (#[trigger] memo_at(
                    memo@,
                    str2@.len() as int + 1,
                    i,
                    j,
                )).is_some() implies memo_at(memo@, str2@.len() as int + 1, i, j).unwrap() == lev(
                str1@.skip(i),
                str2@.skip(j),
            ) by {
                lemma_flat_index_in_range(str1@.len() as int + 1, str2@.len() as int + 1, i, j);
                if i * (str2@.len() as int + 1) + j == idx {
                    lemma_flat_index_injective(
                        str2@.len() as int + 1,
                        i,
                        j,
                        pos1 as int,
                        pos2 as int,
                    );
                } else {
                    assert(memo_at(memo@, str2@.len() as int + 1, i, j) == memo_at(
                        pre,
                        str2@.len() as int + 1,
                        i,
                        j,
                    ));
                }
            }
        }
        d
    }
}

/// Levenshtein distance between two strings: the edit distance of their
/// character sequences divided by the longer length, computed with a dense
/// suffix-pair memo table of `(len1 + 1) * (len2 + 1)` cells. Two empty
/// strings have distance `0`.
pub fn levenshtein_distance(str1: &str, str2: &str) -> (r: Ratio)
    requires
        (str1@.len() + 1) * (str2@.len() + 1) <= usize::MAX,
    ensures
        r.wf(),
        r == spec_levenshtein(str1@, str2@),
{
    let v1 = to_char_vec(str1);
    let v2 = to_char_vec(str2);
    proof {
        assert((str1@.len() + 1) * (str2@.len() + 1) >= str1@.len() + 1) by (nonlinear_arith)
            requires
                str1@.len() >= 0,
                str2@.len() >= 0,
        ;
        assert((str1@.len() + 1) * (str2@.len() + 1) >= str2@.len() + 1) by (nonlinear_arith)
            requires
                str1@.len() >= 0,
                str2@.len() >= 0,
        ;
    }
    let rows: usize = v1.len() + 1;
    let cols: usize = v2.len() + 1;
    let size: usize = rows * cols;
    let mut memo: Vec<Option<usize>> = Vec::new();
    let mut k: usize = 0;
    while k < size
        invariant
            memo@.len() == k,
            k <= size,
            forall|x: int| 0 <= x < k ==> memo@[x] is None,
        decreases size - k,
    {
        memo.push(None);
        k = k + 1;
    }
    proof {
        assert forall|i: int, j: int|
            0 <= i <= str1@.len() && 0 <= j <= str2@.len() implies !(#[trigger] memo_at(
            memo@,
            str2@.len() as int + 1,
            i,
            j,
        )).is_some() by {
            lemma_flat_index_in_range(str1@.len() as int + 1, str2@.len() as int + 1, i, j);
        }
    }
    let d = levenshtein_distance_with_memo(&v1, &v2, 0, 0, &mut memo);
    proof {
        assert(str1@.skip(0) =~= str1@);
        assert(str2@.skip(0) =~= str2@);
        lemma_lev_le_max(str1@, str2@);
    }
    let max_size: usize = if v1.len() >= v2.len() {
        v1.len()
    } else {
        v2.len()
    };
    if max_size == 0 {
        Ratio { num: 0, den: 1 }
    } else {
        Ratio { num: d as u64, den: max_size as u64 }
    }
}

/// The exact Hamming distance of `s` and `t`: the length gap plus the zipped
/// mismatches, over the longer length; `0` when both are empty.
pub open spec fn spec_hamming(s: Seq<char>, t: Seq<char>) -> Ratio {
    if len_max(s, t) == 0 {
        Ratio { num: 0, den: 1 }
    } else {
        Ratio { num: hamming_numer(s, t) as u64, den: len_max(s, t) as u64 }
    }
}

/// The exact Levenshtein distance of `s` and `t`: the edit distance over the
/// longer length; `0` when both are empty.
pub open spec fn spec_levenshtein(s: Seq<char>, t: Seq<char>) -> Ratio {
    if len_max(s, t) == 0 {
        Ratio { num: 0, den: 1 }
    } else {
        Ratio { num: lev(s, t) as u64, den: len_max(s, t) as u64 }
    }
}

/// The Jaro score of a pair of strings, kept as exact integer components.
///
/// `Identical` is the short-circuit for character-for-character equal inputs
/// (distance `0`); `NoMatch` means no character matched within the window
/// (distance `1`); otherwise `Score` carries the match count, the floored
/// transposition count and the two lengths, from which the distance is
/// `1 - (m/len1 + m/len2 + (m - t)/m) / 3`.
#[derive(Clone, Copy, PartialEq, Eq, Structural, Debug)]
pub enum JaroScore {
    Identical,
    NoMatch,
    Score { matched: u64, transpositions: u64, len1: u64, len2: u64 },
}

/// The bounds that every score returned by [`jaro_distance`] satisfies: at
/// least one match, no more matches than either length, no more floored
/// transpositions than matches, and lengths small enough that the exact
/// rational denominator `3 * len1 * len2 * matched` fits in a `u64`.
pub open spec fn jaro_score_wf(score: JaroScore) -> bool {
    match score {
        JaroScore::Identical => true,
        JaroScore::NoMatch => true,
        JaroScore::Score { matched, transpositions, len1, len2 } => {
            &&& 1 <= matched
            &&& matched <= len1
            &&& matched <= len2
            &&& transpositions <= matched
            &&& len1 <= 1000000
            &&& len2 <= 1000000
        },
    }
}

/// Matching window half-width `max(len1, len2) / 2 - 1` under integer
/// division, clamped at zero: for inputs of length at most one the naive
/// formula would underflow, so the window is empty instead.
pub open spec fn jaro_window(l1: nat, l2: nat) -> nat {
    let m = if l1 >= l2 {
        l1
    } else {
        l2
    };
    if m / 2 >= 1 {
        (m / 2 - 1) as nat
    } else {
        0
    }
}

/// Lower end (inclusive) of the search window for position `k`.
pub open spec fn window_lo(k: int, w: int) -> int {
    if k > w {
        k - w
    } else {
        0
    }
}

/// Upper end (exclusive) of the search window for position `k`.
pub open spec fn window_hi(k: int, w: int, l2: int) -> int {
    if k + w + 1 <= l2 {
        k + w + 1
    } else {
        l2
    }
}

/// The leftmost position `j` in `[lo, hi)` with `t[j] == c` that is not yet
/// consumed, if any: leftmost match wins, with no backtracking.
pub open spec fn first_free_match(t: Seq<char>, used: Set<int>, c: char, lo: int, hi: int) -> Option<
    int,
>
    decreases hi - lo,
{
    if lo >= hi {
        None
    } else if t[lo] == c && !used.contains(lo) {
        Some(lo)
    } else {
        first_free_match(t, used, c, lo + 1, hi)
    }
}

/// State of the greedy matching after the first `i` positions of `s` have
/// been processed: the set of matched positions of `s`, the set of consumed
/// positions of `t`, and the number of matches.
pub open spec fn jaro_state(s: Seq<char>, t: Seq<char>, w: int, i: nat) -> (Set<int>, Set<
    int,
>, nat)
    decreases i,
{
    if i == 0 {
        (Set::empty(), Set::empty(), 0)
    } else {
        let prev = jaro_state(s, t, w, (i - 1) as nat);
        let k = i - 1;
        match first_free_match(t, prev.1, s[k], window_lo(k, w), window_hi(k, w, t.len() as int)) {
            Some(j) => (prev.0.insert(k), prev.1.insert(j), prev.2 + 1),
            None => prev,
        }
    }
}

/// How many characters of `s` match within the window.
pub open spec fn jaro_matched(s: Seq<char>, t: Seq<char>) -> nat {
    jaro_state(s, t, jaro_window(s.len(), t.len()) as int, s.len()).2
}

/// The members of `u` that lie in `[0, n)`, in ascending order.
pub open spec fn ascending_members(u: Set<int>, n: int) -> Seq<int>
    decreases n,
{
    if n <= 0 {
        Seq::empty()
    } else if u.contains(n - 1) {
        ascending_members(u, n - 1).push(n - 1)
    } else {
        ascending_members(u, n - 1)
    }
}

/// How many of the first `k` aligned pairs `(a[x], b[x])` hold different
/// characters when read in `s` and `t`.
pub open spec fn mismatched_pairs(s: Seq<char>, t: Seq<char>, a: Seq<int>, b: Seq<int>, k: nat) -> nat
    decreases k,
{
    if k == 0 {
        0
    } else {
        mismatched_pairs(s, t, a, b, (k - 1) as nat) + (if s[a[k - 1]] != t[b[k - 1]] {
            1nat
        } else {
            0nat
        })
    }
}

/// Raw mismatch count between the matched characters of `s` in original
/// order and the matched characters of `t` in original order; the
/// transposition count is this value halved, rounding down.
pub open spec fn jaro_raw_transpositions(s: Seq<char>, t: Seq<char>) -> nat {
    let st = jaro_state(s, t, jaro_window(s.len(), t.len()) as int, s.len());
    let a = ascending_members(st.0, s.len() as int);
    let b = ascending_members(st.1, t.len() as int);
    mismatched_pairs(s, t, a, b, a.len())
}

proof fn lemma_first_free_match_props(t: Seq<char>, used: Set<int>, c: char, lo: int, hi: int)
    requires
        0 <= lo,
        hi <= t.len(),
    ensures
        first_free_match(t, used, c, lo, hi).is_some() ==> {
            let j = first_free_match(t, used, c, lo, hi).unwrap();
            lo <= j < hi && t[j] == c && !used.contains(j)
        },
    decreases hi - lo,
{
    if lo < hi && !(t[lo] == c && !used.contains(lo)) {
        lemma_first_free_match_props(t, used, c, lo + 1, hi);
    }
}

proof fn lemma_jaro_state_props(s: Seq<char>, t: Seq<char>, w: int, i: nat)
    requires
        i <= s.len(),
    ensures
        jaro_state(s, t, w, i).0.finite(),
        jaro_state(s, t, w, i).1.finite(),
        jaro_state(s, t, w, i).0.len() == jaro_state(s, t, w, i).2,
        jaro_state(s, t, w, i).1.len() == jaro_state(s, t, w, i).2,
        forall|p: int| jaro_state(s, t, w, i).0.contains(p) ==> 0 <= p < i,
        forall|p: int| jaro_state(s, t, w, i).1.contains(p) ==> 0 <= p < t.len(),
        jaro_state(s, t, w, i).2 <= i,
    decreases i,
{
    if i > 0 {
        lemma_jaro_state_props(s, t, w, (i - 1) as nat);
        let prev = jaro_state(s, t, w, (i - 1) as nat);
        let k = i - 1;
        lemma_first_free_match_props(t, prev.1, s[k], window_lo(k, w), window_hi(
            k,
            w,
            t.len() as int,
        ));
    }
}

proof fn lemma_asc_extends(u: Set<int>, i: int, n: int)
    requires
        0 <= i <= n,
    ensures
        ascending_members(u, i).len() <= ascending_members(u, n).len(),
        ascending_members(u, i) == ascending_members(u, n).take(
            ascending_members(u, i).len() as int,
        ),
    decreases n - i,
{
    if i < n {
        lemma_asc_extends(u, i, n - 1);
        assert(ascending_members(u, i) =~= ascending_members(u, n).take(
            ascending_members(u, i).len() as int,
        ));
    } else {
        assert(ascending_members(u, i) =~= ascending_members(u, n).take(
            ascending_members(u, i).len() as int,
        ));
    }
}

proof fn lemma_asc_props(u: Set<int>, n: int)
    ensures
        forall|x: int|
            0 <= x < ascending_members(u, n).len() ==> 0 <= #[trigger] ascending_members(u, n)[x]
                < n && u.contains(ascending_members(u, n)[x]),
        forall|x: int, y: int|
            0 <= x < y < ascending_members(u, n).len() ==> #[trigger] ascending_members(u, n)[x]
                < #[trigger] ascending_members(u, n)[y],
        forall|p: int| 0 <= p < n && u.contains(p) ==> ascending_members(u, n).contains(p),
    decreases n,
{
    if n > 0 {
        lemma_asc_props(u, n - 1);
        let prev = ascending_members(u, n - 1);
        let cur = ascending_members(u, n);
        if u.contains(n - 1) {
            assert(cur == prev.push(n - 1));
            assert forall|x: int| 0 <= x < cur.len() implies 0 <= #[trigger] cur[x] < n
                && u.contains(cur[x]) by {
                if x < prev.len() {
                    assert(cur[x] == prev[x]);
                } else {
                    assert(cur[x] == n - 1);
                }
            }
            assert forall|x: int, y: int| 0 <= x < y < cur.len() implies #[trigger] cur[x]
                < #[trigger] cur[y] by {
                if y < prev.len() {
                    assert(cur[x] == prev[x] && cur[y] == prev[y]);
                } else {
                    assert(cur[y] == n - 1);
                    assert(cur[x] == prev[x]);
                    assert(prev[x] < n - 1);
                }
            }
        } else {
            assert(cur == prev);
        }
        assert forall|p: int| 0 <= p < n && u.contains(p) implies ascending_members(
            u,
            n,
        ).contains(p) by {
            if p < n - 1 {
                assert(ascending_members(u, n - 1).contains(p));
                let x = choose|x: int|
                    0 <= x < ascending_members(u, n - 1).len() && #[trigger] ascending_members(
                        u,
                        n - 1,
                    )[x] == p;
                assert(ascending_members(u, n)[x] == p);
            } else {
                assert(u.contains(n - 1));
                assert(ascending_members(u, n).last() == n - 1);
            }
        }
    }
}

proof fn lemma_asc_agree(u: Set<int>, v: Set<int>, n: int)
    requires
        forall|p: int| 0 <= p < n ==> u.contains(p) == v.contains(p),
    ensures
        ascending_members(u, n) == ascending_members(v, n),
    decreases n,
{
    if n > 0 {
        lemma_asc_agree(u, v, n - 1);
    }
}

proof fn lemma_asc_len(u: Set<int>, n: int)
    requires
        u.finite(),
        forall|p: int| u.contains(p) ==> 0 <= p < n,
    ensures
        ascending_members(u, n).len() == u.len(),
    decreases n,
{
    if n <= 0 {
        assert(u =~= Set::empty());
    } else if u.contains(n - 1) {
        let v = u.remove(n - 1);
        lemma_asc_len(v, n - 1);
        lemma_asc_agree(u, v, n - 1);
    } else {
        lemma_asc_len(u, n - 1);
    }
}

/// Character-for-character equality of two vectors.
fn chars_eq(a: &Vec<char>, b: &Vec<char>) -> (r: bool)
    ensures
        r == (a@ == b@),
{
    if a.len() != b.len() {
        return false;
    }
    let mut i: usize = 0;
    while i < a.len()
        invariant
            i <= a@.len(),
            a@.len() == b@.len(),
            forall|k: int| 0 <= k < i ==> a@[k] == b@[k],
        decreases a@.len() - i,
    {
        if a[i] != b[i] {
            return false;
        }
        i = i + 1;
    }
    proof {
        assert(a@ =~= b@);
    }
    true
}

/// A vector of `n` `false` flags.
fn false_vec(n: usize) -> (v: Vec<bool>)
    ensures
        v@.len() == n,
        forall|k: int| 0 <= k < n ==> !v@[k],
{
    let mut v: Vec<bool> = Vec::new();
    let mut i: usize = 0;
    while i < n
        invariant
            v@.len() == i,
            i <= n,
            forall|k: int| 0 <= k < i ==> !v@[k],
        decreases n - i,
    {
        v.push(false);
        i = i + 1;
    }
    v
}

/// The leftmost position `j` in `[lo, hi)` of `t` holding `c` and not yet
/// consumed according to `used`, whose flags mirror the ghost set `u`.
fn find_free_match(
    t: &Vec<char>,
    used: &Vec<bool>,
    c: char,
    lo: usize,
    hi: usize,
    u: Ghost<Set<int>>,
) -> (r: Option<usize>)
    requires
        hi <= t@.len(),
        used@.len() == t@.len(),
        forall|k: int| 0 <= k < t@.len() ==> used@[k] == u@.contains(k),
    ensures
        first_free_match(t@, u@, c, lo as int, hi as int).is_some() ==> r.is_some() && r.unwrap()
            as int == first_free_match(t@, u@, c, lo as int, hi as int).unwrap(),
        first_free_match(t@, u@, c, lo as int, hi as int).is_none() ==> r.is_none(),
{
    let mut j: usize = lo;
    while j < hi
        invariant
            lo <= j,
            hi <= t@.len(),
            used@.len() == t@.len(),
            forall|k: int| 0 <= k < t@.len() ==> used@[k] == u@.contains(k),
            first_free_match(t@, u@, c, lo as int, hi as int) == first_free_match(
                t@,
                u@,
                c,
                j as int,
                hi as int,
            ),
        decreases hi - j,
    {
        if t[j] == c && !used[j] {
            return Some(j);
        }
        j = j + 1;
    }
    None
}

/// Jaro distance between two strings, as its exact integer components.
///
/// Identical inputs short-circuit to distance `0`. Otherwise each position of
/// the first string greedily consumes the leftmost unconsumed equal character
/// of the second string within the matching window; no matches at all means
/// distance `1`, and otherwise the match count, the floored count of
/// transposed matched pairs and the two lengths are returned. The length
/// bound keeps the window arithmetic and the exact rational of [`jaro_ratio`]
/// within machine integers.
pub fn jaro_distance(str1: &str, str2: &str) -> (r: JaroScore)
    requires
        str1@.len() <= 1000000,
        str2@.len() <= 1000000,
    ensures
        jaro_score_wf(r),
        r == spec_jaro(str1@, str2@),
{
    let v1 = to_char_vec(str1);
    let v2 = to_char_vec(str2);
    if chars_eq(&v1, &v2) {
        return JaroScore::Identical;
    }
    let len1 = v1.len();
    let len2 = v2.len();
    let maxl: usize = if len1 >= len2 {
        len1
    } else {
        len2
    };
    let w: usize = if maxl / 2 >= 1 {
        maxl / 2 - 1
    } else {
        0
    };
    let ghost gw: int = w as int;
    proof {
        assert(gw == jaro_window(v1@.len(), v2@.len()));
    }
    let mut hash1 = false_vec(len1);
    let mut hash2 = false_vec(len2);
    let mut matched: usize = 0;
    let mut i: usize = 0;
    while i < len1
        invariant
            i <= len1,
            len1 == v1@.len(),
            len2 == v2@.len(),
            v1@.len() <= 1000000,
            v2@.len() <= 1000000,
            w <= 500000,
            gw == w as int,
            gw == jaro_window(v1@.len(), v2@.len()),
            hash1@.len() == len1,
            hash2@.len() == len2,
            matched == jaro_state(v1@, v2@, gw, i as nat).2,
            matched <= i,
            forall|k: int|
                0 <= k < len1 ==> hash1@[k] == jaro_state(v1@, v2@, gw, i as nat).0.contains(k),
            forall|k: int|
                0 <= k < len2 ==> hash2@[k] == jaro_state(v1@, v2@, gw, i as nat).1.contains(k),
        decreases len1 - i,
    {
        let ghost st = jaro_state(v1@, v2@, gw, i as nat);
        proof {
            lemma_jaro_state_props(v1@, v2@, gw, i as nat);
            lemma_first_free_match_props(
                v2@,
                st.1,
                v1@[i as int],
                window_lo(i as int, gw),
                window_hi(i as int, gw, v2@.len() as int),
            );
        }
        let low: usize = if i > w {
            i - w
        } else {
            0
        };
        let high: usize = if i + w + 1 <= len2 {
            i + w + 1
        } else {
            len2
        };
        let c: char = v1[i];
        let res = find_free_match(&v2, &hash2, c, low, high, Ghost(st.1));
        match res {
            Some(j) => {
                hash1[i] = true;
                hash2[j] = true;
                matched = matched + 1;
            },
            None => {},
        }
        i = i + 1;
        proof {
            assert(jaro_state(v1@, v2@, gw, i as nat) == (if i == 0 {
                (Set::<int>::empty(), Set::<int>::empty(), 0nat)
            } else {
                let prev = jaro_state(v1@, v2@, gw, (i - 1) as nat);
                let k = i - 1;
                match first_free_match(
                    v2@,
                    prev.1,
                    v1@[k],
                    window_lo(k, gw),
                    window_hi(k, gw, v2@.len() as int),
                ) {
                    Some(j) => (prev.0.insert(k), prev.1.insert(j), (prev.2 + 1) as nat),
                    None => prev,
                }
            }));
        }
    }
    if matched == 0 {
        return JaroScore::NoMatch;
    }
    let ghost stf0 = jaro_state(v1@, v2@, gw, len1 as nat).0;
    let ghost stf1 = jaro_state(v1@, v2@, gw, len1 as nat).1;
    let ghost a = ascending_members(stf0, len1 as int);
    let ghost b = ascending_members(stf1, len2 as int);
    proof {
        lemma_jaro_state_props(v1@, v2@, gw, len1 as nat);
        lemma_asc_len(stf0, len1 as int);
        lemma_asc_len(stf1, len2 as int);
        lemma_asc_props(stf0, len1 as int);
        lemma_asc_props(stf1, len2 as int);
        vstd::set_lib::lemma_int_range(0, len2 as int);
        vstd::set_lib::lemma_len_subset(stf1, vstd::set_lib::set_int_range(0, len2 as int));
        assert(a.take(0) =~= ascending_members(stf0, 0));
        assert(b.take(0) =~= ascending_members(stf1, 0));
    }
    let mut transpositions: usize = 0;
    let mut point: usize = 0;
    let ghost mut kk: int = 0;
    let mut i: usize = 0;
    while i < len1
        invariant
            i <= len1,
            point <= len2,
            len1 == v1@.len(),
            len2 == v2@.len(),
            hash1@.len() == len1,
            hash2@.len() == len2,
            forall|k: int| 0 <= k < len1 ==> hash1@[k] == stf0.contains(k),
            forall|k: int| 0 <= k < len2 ==> hash2@[k] == stf1.contains(k),
            a == ascending_members(stf0, len1 as int),
            b == ascending_members(stf1, len2 as int),
            a.len() == matched,
            b.len() == matched,
            0 <= kk <= a.len(),
            a.take(kk) == ascending_members(stf0, i as int),
            b.take(kk) == ascending_members(stf1, point as int),
            transpositions == mismatched_pairs(v1@, v2@, a, b, kk as nat),
            transpositions <= kk,
        decreases len1 - i,
    {
        proof {
            lemma_asc_props(stf0, len1 as int);
            lemma_asc_props(stf1, len2 as int);
        }
        if hash1[i] {
            proof {
                lemma_asc_props(stf0, i as int);
                lemma_asc_props(stf1, point as int);
                assert(stf0.contains(i as int));
                assert(a.contains(i as int));
                let x = choose|x: int| 0 <= x < a.len() && #[trigger] a[x] == i as int;
                assert(x >= kk) by {
                    if x < kk {
                        assert(a.take(kk)[x] == i as int);
                        assert(ascending_members(stf0, i as int)[x] < i as int);
                    }
                }
                assert(kk < a.len());
                assert(point <= b[kk]) by {
                    if b[kk] < point {
                        assert(stf1.contains(b[kk]));
                        assert(ascending_members(stf1, point as int).contains(b[kk]));
                        let y = choose|y: int|
                            0 <= y < kk && #[trigger] ascending_members(stf1, point as int)[y]
                                == b[kk];
                        assert(b.take(kk)[y] == b[kk]);
                        assert(b[y] == b[kk]);
                    }
                }
            }
            while !hash2[point]
                invariant
                    len2 == v2@.len(),
                    hash2@.len() == len2,
                    forall|k: int| 0 <= k < len2 ==> hash2@[k] == stf1.contains(k),
                    b == ascending_members(stf1, len2 as int),
                    0 <= kk < b.len(),
                    point <= b[kk],
                    b[kk] < len2,
                    b.take(kk) == ascending_members(stf1, point as int),
                decreases b[kk] - point,
            {
                proof {
                    lemma_asc_props(stf1, len2 as int);
                    assert(stf1.contains(b[kk]));
                    assert(!stf1.contains(point as int));
                    assert(point < b[kk]);
                }
                point = point + 1;
                proof {
                    assert(!stf1.contains(point - 1));
                    assert(ascending_members(stf1, point as int) == ascending_members(
                        stf1,
                        point as int - 1,
                    ));
                }
            }
            proof {
                assert(stf1.contains(point as int));
                assert(ascending_members(stf1, point as int + 1) == ascending_members(
                    stf1,
                    point as int,
                ).push(point as int));
                assert(ascending_members(stf1, point as int + 1).len() == kk + 1);
                lemma_asc_extends(stf1, point as int + 1, len2 as int);
                assert(b.take(kk + 1) == b.take(kk).push(point as int));
                assert(kk + 1 <= b.len());
                assert(b.take(kk + 1)[kk] == b[kk]);
                assert(b[kk] == point as int);
                assert(ascending_members(stf0, i as int + 1) == ascending_members(
                    stf0,
                    i as int,
                ).push(i as int));
                assert(ascending_members(stf0, i as int + 1).len() == kk + 1);
                lemma_asc_extends(stf0, i as int + 1, len1 as int);
                assert(a.take(kk + 1) == a.take(kk).push(i as int));
                assert(kk + 1 <= a.len());
                assert(a.take(kk + 1)[kk] == a[kk]);
                assert(a[kk] == i as int);
            }
            if v1[i] != v2[point] {
                transpositions = transpositions + 1;
            }
            point = point + 1;
            proof {
                kk = kk + 1;
            }
        } else {
            proof {
                assert(ascending_members(stf0, i as int + 1) == ascending_members(
                    stf0,
                    i as int,
                ));
            }
        }
        i = i + 1;
    }
    proof {
        assert(a.take(kk) == a.take(a.len() as int));
        assert(a.take(a.len() as int) =~= a);
        assert(kk == a.len());
        assert(transpositions == jaro_raw_transpositions(v1@, v2@));
    }
    let t_fl: usize = transpositions / 2;
    JaroScore::Score {
        matched: matched as u64,
        transpositions: t_fl as u64,
        len1: len1 as u64,
        len2: len2 as u64,
    }
}

/// The Jaro score of `s` and `t`: the short-circuit for equal inputs, the
/// no-match case, or the match count, floored transposition count and the two
/// lengths from the greedy windowed matching.
pub open spec fn spec_jaro(s: Seq<char>, t: Seq<char>) -> JaroScore {
    if s == t {
        JaroScore::Identical
    } else if jaro_matched(s, t) == 0 {
        JaroScore::NoMatch
    } else {
        JaroScore::Score {
            matched: jaro_matched(s, t) as u64,
            transpositions: (jaro_raw_transpositions(s, t) / 2) as u64,
            len1: s.len() as u64,
            len2: t.len() as u64,
        }
    }
}

/// Every metric of a pair of equal strings is zero: the Hamming and
/// Levenshtein numerators vanish and the Jaro score short-circuits to
/// `Identical`, whose rational value is `0 / 1`.
pub proof fn lemma_metrics_identity(s: Seq<char>)
    ensures
        spec_hamming(s, s).num == 0,
        spec_levenshtein(s, s).num == 0,
        spec_jaro(s, s) == JaroScore::Identical,
        spec_jaro_ratio(spec_jaro(s, s)).num == 0,
{
    lemma_hamming_identity(s);
    lemma_lev_identity(s);
}

/// The Hamming and Levenshtein distances are symmetric: swapping the two
/// strings swaps nothing in the exact score.
pub proof fn lemma_metrics_symmetric(s: Seq<char>, t: Seq<char>)
    ensures
        spec_hamming(s, t) == spec_hamming(t, s),
        spec_levenshtein(s, t) == spec_levenshtein(t, s),
{
    lemma_hamming_symmetric(s, t);
    lemma_lev_symmetric(s, t);
}

/// Exact rational value of a Jaro score: `0` for identical inputs, `1` when
/// nothing matched, otherwise
/// `(3*l1*l2*m - (m*m*l2 + m*m*l1 + (m - t)*l1*l2)) / (3*l1*l2*m)`,
/// which is `1 - (m/l1 + m/l2 + (m - t)/m) / 3` brought to the common
/// denominator.
pub open spec fn spec_jaro_ratio(score: JaroScore) -> Ratio {
    match score {
        JaroScore::Identical => Ratio { num: 0, den: 1 },
        JaroScore::NoMatch => Ratio { num: 1, den: 1 },
        JaroScore::Score { matched, transpositions, len1, len2 } => Ratio {
            num: (3 * len1 * len2 * matched - (matched * matched * len2 + matched * matched * len1
                + (matched - transpositions) * len1 * len2)) as u64,
            den: (3 * len1 * len2 * matched) as u64,
        },
    }
}

/// The exact rational Jaro distance of a well-formed score, always in `[0, 1]`.
pub fn jaro_ratio(score: JaroScore) -> (r: Ratio)
    requires
        jaro_score_wf(score),
    ensures
        r.wf(),
        r == spec_jaro_ratio(score),
{
    match score {
        JaroScore::Identical => Ratio { num: 0, den: 1 },
        JaroScore::NoMatch => Ratio { num: 1, den: 1 },
        JaroScore::Score { matched, transpositions, len1, len2 } => {
            proof {
                assert(len1 * len2 <= 1000000000000) by (nonlinear_arith)
                    requires
                        0 <= len1 <= 1000000,
                        0 <= len2 <= 1000000,
                ;
                assert(matched * matched <= 1000000000000) by (nonlinear_arith)
                    requires
                        0 <= matched <= 1000000,
                ;
            }
            let lprod: u64 = len1 * len2;
            let mt: u64 = matched - transpositions;
            proof {
                assert(lprod * matched <= 1000000000000000000) by (nonlinear_arith)
                    requires
                        0 <= lprod <= 1000000000000,
                        0 <= matched <= 1000000,
                ;
                assert(1 <= lprod * matched) by (nonlinear_arith)
                    requires
                        1 <= matched,
                        matched <= len1,
                        matched <= len2,
                        lprod == len1 * len2,
                ;
            }
            let lm: u64 = lprod * matched;
            let den: u64 = 3 * lm;
            proof {
                assert(matched * matched * len2 <= lprod * matched && matched * matched * len2
                    <= 1000000000000000000) by (nonlinear_arith)
                    requires
                        0 <= matched <= len1,
                        matched <= len2 <= 1000000,
                        matched * matched <= 1000000000000,
                        lprod == len1 * len2,
                ;
                assert(matched * matched * len1 <= lprod * matched && matched * matched * len1
                    <= 1000000000000000000) by (nonlinear_arith)
                    requires
                        0 <= matched <= len2,
                        matched <= len1 <= 1000000,
                        matched * matched <= 1000000000000,
                        lprod == len1 * len2,
                ;
                assert(mt * lprod <= lprod * matched && mt * lprod <= 1000000000000000000)
                    by (nonlinear_arith)
                    requires
                        0 <= mt <= matched <= 1000000,
                        0 <= lprod <= 1000000000000,
                ;
            }
            let mm: u64 = matched * matched;
            let part1: u64 = mm * len2;
            let part2: u64 = mm * len1;
            let part3: u64 = mt * lprod;
            let sim_num: u64 = part1 + part2 + part3;
            proof {
                assert(3 * (lprod * matched) == 3 * len1 * len2 * matched) by (nonlinear_arith)
                    requires
                        lprod == len1 * len2,
                ;
                assert(mm * len2 == matched * matched * len2) by (nonlinear_arith)
                    requires
                        mm == matched * matched,
                ;
                assert(mm * len1 == matched * matched * len1) by (nonlinear_arith)
                    requires
                        mm == matched * matched,
                ;
                assert(mt * lprod == (matched - transpositions) * len1 * len2) by (nonlinear_arith)
                    requires
                        mt == matched - transpositions,
                        lprod == len1 * len2,
                ;
            }
            Ratio { num: den - sim_num, den }
        },
    }
}

/// Collects the characters of a string in order. Character positions, not
/// byte positions, index every metric in this crate.
pub fn to_char_vec(s: &str) -> (v: Vec<char>)
    ensures
        v@ == s@,
{
    let n = s.unicode_len();
    let mut v: Vec<char> = Vec::new();
    let mut i: usize = 0;
    while i < n
        invariant
            n == s@.len(),
            i <= n,
            v@ == s@.take(i as int),
        decreases n - i,
    {
        let c = s.get_char(i);
        v.push(c);
        i = i + 1;
        proof {
            assert(s@.take(i as int) =~= s@.take(i - 1).push(s@[i - 1]));
        }
    }
    proof {
        assert(s@.take(n as int) =~= s@);
    }
    v
}

/// Generalized Hamming distance between two strings: the absolute difference
/// of the character counts (the length gap counts as pure mismatch) plus the
/// number of differing positions over the zipped common prefix, divided by
/// the longer length. Two empty strings have distance `0`.
pub fn hamming_distance(str1: &str, str2: &str) -> (r: Ratio)
    ensures
        r.wf(),
        r == spec_hamming(str1@, str2@),
{
    let v1 = to_char_vec(str1);
    let v2 = to_char_vec(str2);
    let len1 = v1.len();
    let len2 = v2.len();
    let max_size = if len1 >= len2 {
        len1
    } else {
        len2
    };
    let min_size = if len1 <= len2 {
        len1
    } else {
        len2
    };
    let mut mism: usize = 0;
    let mut i: usize = 0;
    while i < min_size
        invariant
            len1 == v1@.len(),
            len2 == v2@.len(),
            v1@ == str1@,
            v2@ == str2@,
            min_size == len_min(str1@, str2@),
            i <= min_size,
            mism == mismatches_upto(str1@, str2@, i as nat),
            mism <= i,
        decreases min_size - i,
    {
        if v1[i] != v2[i] {
            mism = mism + 1;
        }
        i = i + 1;
    }
    if max_size == 0 {
        Ratio { num: 0, den: 1 }
    } else {
        Ratio { num: (max_size - min_size) as u64 + mism as u64, den: max_size as u64 }
    }
}

} // verus!
