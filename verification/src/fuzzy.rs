//! Case-insensitive Levenshtein distance and "did you mean?" suggestions.

use vstd::prelude::*;

use crate::text::{lemma_lower_bytes_utf8, lemma_utf8_injective, lower_byte, lower_bytes, lower_chars, same_ignoring_case, string_views, utf8};

verus! {

/// The smaller of two naturals.
pub open spec fn min_nat(x: nat, y: nat) -> nat {
    if x <= y {
        x
    } else {
        y
    }
}

/// The larger of two naturals.
pub open spec fn max_nat(x: nat, y: nat) -> nat {
    if x >= y {
        x
    } else {
        y
    }
}

/// The cost of aligning the last bytes of two non-empty sequences.
pub open spec fn substitution_cost(a: Seq<u8>, b: Seq<u8>) -> nat {
    if a.last() == b.last() {
        0
    } else {
        1
    }
}

/// The edit distance of two byte sequences: the least number of single-byte
/// insertions, deletions and substitutions turning `a` into `b`.
pub open spec fn edit_distance(a: Seq<u8>, b: Seq<u8>) -> nat
    decreases a.len() + b.len(),
{
    if a.len() == 0 {
        b.len()
    } else if b.len() == 0 {
        a.len()
    } else {
        min_nat(
            min_nat(edit_distance(a.drop_last(), b) + 1, edit_distance(a, b.drop_last()) + 1),
            edit_distance(a.drop_last(), b.drop_last()) + substitution_cost(a, b),
        )
    }
}

/// The Levenshtein distance of two identifiers, comparing their UTF-8 bytes
/// with ASCII letters folded to lowercase.
pub open spec fn levenshtein(a: Seq<char>, b: Seq<char>) -> nat {
    edit_distance(lower_bytes(utf8(a)), lower_bytes(utf8(b)))
}

/// Candidate `i` is the one suggested for `name`: within `threshold`, closer
/// than every earlier candidate and no farther than every later one.
pub open spec fn is_best_suggestion(name: Seq<char>, candidates: Seq<Seq<char>>, threshold: nat, i: int) -> bool {
    &&& 0 <= i < candidates.len()
    &&& levenshtein(name, candidates[i]) <= threshold
    &&& forall|j: int| 0 <= j < i ==> levenshtein(name, #[trigger] candidates[j]) > levenshtein(name, candidates[i])
    &&& forall|j: int| i < j < candidates.len() ==> levenshtein(name, #[trigger] candidates[j]) >= levenshtein(name, candidates[i])
}

/// `r` is what is suggested for `name` among `candidates`: nothing when no
/// candidate is within `threshold`, otherwise the best one.
pub open spec fn suggestion_for(name: Seq<char>, candidates: Seq<Seq<char>>, threshold: nat, r: Option<Seq<char>>) -> bool {
    match r {
        None => forall|j: int| 0 <= j < candidates.len() ==> levenshtein(name, #[trigger] candidates[j]) > threshold,
        Some(s) => exists|i: int| is_best_suggestion(name, candidates, threshold, i) && s == candidates[i],
    }
}

/// What is suggested for `name` among `candidates`.
pub open spec fn suggestion(name: Seq<char>, candidates: Seq<Seq<char>>, threshold: nat) -> Option<Seq<char>> {
    if exists|i: int| is_best_suggestion(name, candidates, threshold, i) {
        Some(candidates[choose|i: int| is_best_suggestion(name, candidates, threshold, i)])
    } else {
        None
    }
}

/// At most one candidate is the best suggestion, so `suggestion_for`
/// determines its result.
pub proof fn lemma_suggestion_unique(name: Seq<char>, candidates: Seq<Seq<char>>, threshold: nat, r: Option<Seq<char>>)
    requires
        suggestion_for(name, candidates, threshold, r),
    ensures
        r == suggestion(name, candidates, threshold),
{
    match r {
        None => {
            if exists|i: int| is_best_suggestion(name, candidates, threshold, i) {
                let i = choose|i: int| is_best_suggestion(name, candidates, threshold, i);
                assert(levenshtein(name, candidates[i]) > threshold);
            }
        },
        Some(s) => {
            let i = choose|i: int| is_best_suggestion(name, candidates, threshold, i) && s == candidates[i];
            let k = choose|k: int| is_best_suggestion(name, candidates, threshold, k);
            if i < k {
                assert(levenshtein(name, candidates[i]) > levenshtein(name, candidates[k]));
            } else if k < i {
                assert(levenshtein(name, candidates[k]) > levenshtein(name, candidates[i]));
            }
        },
    }
}

/// The distance never exceeds the longer length.
pub proof fn lemma_edit_distance_bounded(a: Seq<u8>, b: Seq<u8>)
    ensures
        edit_distance(a, b) <= max_nat(a.len(), b.len()),
    decreases a.len() + b.len(),
{
    if a.len() > 0 && b.len() > 0 {
        lemma_edit_distance_bounded(a.drop_last(), b.drop_last());
    }
}

/// A sequence is at distance zero from itself.
pub proof fn lemma_edit_distance_self(a: Seq<u8>)
    ensures
        edit_distance(a, a) == 0,
    decreases a.len(),
{
    if a.len() > 0 {
        lemma_edit_distance_self(a.drop_last());
    }
}

/// The distance is symmetric.
pub proof fn lemma_edit_distance_symmetric(a: Seq<u8>, b: Seq<u8>)
    ensures
        edit_distance(a, b) == edit_distance(b, a),
    decreases a.len() + b.len(),
{
    if a.len() > 0 && b.len() > 0 {
        lemma_edit_distance_symmetric(a.drop_last(), b);
        lemma_edit_distance_symmetric(a, b.drop_last());
        lemma_edit_distance_symmetric(a.drop_last(), b.drop_last());
    }
}

fn lower_ascii_byte(b: u8) -> (r: u8)
    ensures
        r == lower_byte(b),
{
    if 65 <= b && b <= 90 {
        b + 32
    } else {
        b
    }
}

fn lowered_bytes(s: &[u8]) -> (r: Vec<u8>)
    ensures
        r@ == lower_bytes(s@),
{
    let mut r: Vec<u8> = Vec::new();
    let mut i: usize = 0;
    while i < s.len()
        invariant
            0 <= i <= s@.len(),
            r@ == lower_bytes(s@.take(i as int)),
        decreases s@.len() - i,
    {
        let c = lower_ascii_byte(s[i]);
        r.push(c);
        i += 1;
        assert(r@ =~= lower_bytes(s@.take(i as int)));
    }
    assert(s@.take(i as int) =~= s@);
    r
}

/// One step of the recurrence on prefixes.
proof fn lemma_edit_distance_step(a: Seq<u8>, b: Seq<u8>, i: int, j: int)
    requires
        0 < i <= a.len(),
        0 < j <= b.len(),
    ensures
        edit_distance(a.take(i), b.take(j)) == min_nat(
            min_nat(edit_distance(a.take(i - 1), b.take(j)) + 1, edit_distance(a.take(i), b.take(j - 1)) + 1),
            edit_distance(a.take(i - 1), b.take(j - 1)) + (if a[i - 1] == b[j - 1] { 0nat } else { 1nat }),
        ),
{
    assert(a.take(i).drop_last() =~= a.take(i - 1));
    assert(b.take(j).drop_last() =~= b.take(j - 1));
}

/// Compute the Levenshtein distance between two strings (case-insensitive).
///
/// Works on UTF-8 bytes, with ASCII letters folded to lowercase.
pub fn levenshtein_distance(a: &str, b: &str) -> (d: usize)
    ensures
        d == levenshtein(a@, b@),
{
    let a = lowered_bytes(a.as_bytes());
    let b = lowered_bytes(b.as_bytes());
    let ghost sa = a@;
    let ghost sb = b@;
    let m = a.len();
    let n = b.len();
    if m == 0 {
        return n;
    }
    if n == 0 {
        return m;
    }
    let mut prev: Vec<usize> = Vec::new();
    let mut curr: Vec<usize> = Vec::new();
    prev.push(0);
    curr.push(0);
    let mut j: usize = 0;
    while j < n
        invariant
            0 <= j <= n,
            n == sb.len(),
            prev@.len() == j + 1,
            curr@.len() == j + 1,
            forall|k: int| 0 <= k <= j ==> #[trigger] prev@[k] == edit_distance(sa.take(0), sb.take(k)),
        decreases n - j,
    {
        prev.push(j + 1);
        curr.push(0);
        j += 1;
        assert(sb.take(j as int).len() == j);
    }
    let row_len = prev.len();
    assert(row_len == n + 1);
    let mut i: usize = 0;
    while i < m
        invariant
            0 <= i <= m,
            n < usize::MAX,
            m == sa.len(),
            n == sb.len(),
            a@ == sa,
            b@ == sb,
            prev@.len() == n + 1,
            curr@.len() == n + 1,
            forall|k: int| 0 <= k <= n ==> #[trigger] prev@[k] == edit_distance(sa.take(i as int), sb.take(k)),
        decreases m - i,
    {
        curr.set(0, i + 1);
        assert(sb.take(0).len() == 0);
        let mut j: usize = 1;
        while j <= n
            invariant
                1 <= j <= n + 1,
                n < usize::MAX,
                0 <= i < m,
                m == sa.len(),
                n == sb.len(),
                a@ == sa,
                b@ == sb,
                prev@.len() == n + 1,
                curr@.len() == n + 1,
                forall|k: int| 0 <= k <= n ==> #[trigger] prev@[k] == edit_distance(sa.take(i as int), sb.take(k)),
                forall|k: int| 0 <= k < j ==> #[trigger] curr@[k] == edit_distance(sa.take(i + 1), sb.take(k)),
            decreases n + 1 - j,
        {
            proof {
                lemma_edit_distance_step(sa, sb, i + 1, j as int);
                lemma_edit_distance_bounded(sa.take(i as int), sb.take(j - 1));
                lemma_edit_distance_bounded(sa.take(i as int), sb.take(j as int));
                lemma_edit_distance_bounded(sa.take(i + 1), sb.take(j - 1));
            }
            let cost: usize = if a[i] == b[j - 1] { 0 } else { 1 };
            let diag = prev[j - 1] + cost;
            let del = if prev[j] < usize::MAX { prev[j] + 1 } else { prev[j] };
            let ins = if curr[j - 1] < usize::MAX { curr[j - 1] + 1 } else { curr[j - 1] };
            let mut v = diag;
            if del < v {
                v = del;
            }
            if ins < v {
                v = ins;
            }
            curr.set(j, v);
            j += 1;
        }
        std::mem::swap(&mut prev, &mut curr);
        i += 1;
    }
    assert(sa.take(m as int) =~= sa);
    assert(sb.take(n as int) =~= sb);
    prev[n]
}

/// Find the best matching candidate within a maximum Levenshtein distance.
///
/// Returns the closest match (the first of several equally close ones), or
/// `None` if no candidate is within `threshold`.
pub fn best_suggestion(name: &str, candidates: &[String], threshold: usize) -> (r: Option<String>)
    ensures
        r is None <==> forall|j: int| 0 <= j < candidates@.len() ==> levenshtein(name@, #[trigger] candidates@[j]@) > threshold,
        r matches Some(s) ==> exists|i: int| is_best_suggestion(name@, string_views(candidates@), threshold as nat, i) && s@ == candidates@[i]@,
        suggestion_for(name@, string_views(candidates@), threshold as nat, match r {
            Some(s) => Some(s@),
            None => None,
        }),
{
    let ghost views = string_views(candidates@);
    let mut best: Option<(usize, usize)> = None;
    let mut i: usize = 0;
    while i < candidates.len()
        invariant
            0 <= i <= candidates@.len(),
            views == string_views(candidates@),
            best is None ==> forall|j: int| 0 <= j < i ==> levenshtein(name@, #[trigger] views[j]) > threshold,
            best matches Some(bd) ==> {
                &&& bd.0 < i
                &&& bd.1 == levenshtein(name@, views[bd.0 as int])
                &&& bd.1 <= threshold
                &&& forall|j: int| 0 <= j < bd.0 ==> levenshtein(name@, #[trigger] views[j]) > bd.1
                &&& forall|j: int| bd.0 < j < i ==> levenshtein(name@, #[trigger] views[j]) >= bd.1
            },
        decreases candidates@.len() - i,
    {
        let d = levenshtein_distance(name, candidates[i].as_str());
        assert(views[i as int] == candidates@[i as int]@);
        if d <= threshold {
            match best {
                None => {
                    best = Some((i, d));
                },
                Some((_, bd)) => {
                    if d < bd {
                        best = Some((i, d));
                    }
                },
            }
        }
        i += 1;
    }
    match best {
        None => {
            assert forall|j: int| 0 <= j < candidates@.len() implies levenshtein(name@, #[trigger] candidates@[j]@) > threshold by {
                assert(views[j] == candidates@[j]@);
            }
            assert forall|j: int| 0 <= j < views.len() implies levenshtein(name@, #[trigger] views[j]) > threshold by {}
            None
        },
        Some((bi, _)) => {
            assert(is_best_suggestion(name@, views, threshold as nat, bi as int));
            let s = candidates[bi].clone();
            assert(s@ == views[bi as int]);
            Some(s)
        },
    }
}


/// Only equal sequences are at distance zero.
pub proof fn lemma_edit_distance_zero(a: Seq<u8>, b: Seq<u8>)
    requires
        edit_distance(a, b) == 0,
    ensures
        a == b,
    decreases a.len() + b.len(),
{
    if a.len() == 0 {
        assert(b.len() == 0);
        assert(a =~= b);
    } else if b.len() == 0 {
    } else {
        lemma_edit_distance_zero(a.drop_last(), b.drop_last());
        assert(a =~= a.drop_last().push(a.last()));
        assert(b =~= b.drop_last().push(b.last()));
    }
}

/// Levenshtein distance ignores ASCII case: names that differ only in the
/// case of ASCII letters are at the same distance from every name.
pub proof fn law_levenshtein_ignores_case(a: Seq<char>, a2: Seq<char>, b: Seq<char>)
    requires
        same_ignoring_case(a, a2),
    ensures
        levenshtein(a, b) == levenshtein(a2, b),
        levenshtein(b, a) == levenshtein(b, a2),
{
    lemma_lower_bytes_utf8(a);
    lemma_lower_bytes_utf8(a2);
}

/// Two names are at distance zero exactly when they are equal ignoring
/// ASCII case.
pub proof fn law_levenshtein_zero_iff_same(a: Seq<char>, b: Seq<char>)
    ensures
        levenshtein(a, b) == 0 <==> same_ignoring_case(a, b),
{
    lemma_lower_bytes_utf8(a);
    lemma_lower_bytes_utf8(b);
    if levenshtein(a, b) == 0 {
        lemma_edit_distance_zero(lower_bytes(utf8(a)), lower_bytes(utf8(b)));
        lemma_utf8_injective(lower_chars(a), lower_chars(b));
    }
    if same_ignoring_case(a, b) {
        lemma_edit_distance_self(lower_bytes(utf8(a)));
    }
}

/// The distance is symmetric.
pub proof fn law_levenshtein_symmetric(a: Seq<char>, b: Seq<char>)
    ensures
        levenshtein(a, b) == levenshtein(b, a),
{
    lemma_edit_distance_symmetric(lower_bytes(utf8(a)), lower_bytes(utf8(b)));
}

/// The distance never exceeds the byte length of the longer name.
pub proof fn law_levenshtein_bounded(a: Seq<char>, b: Seq<char>)
    ensures
        levenshtein(a, b) <= max_nat(utf8(a).len(), utf8(b).len()),
{
    lemma_edit_distance_bounded(lower_bytes(utf8(a)), lower_bytes(utf8(b)));
}

proof fn lemma_edit_distance_at_least_length_gap(a: Seq<u8>, b: Seq<u8>)
    ensures
        edit_distance(a, b) >= a.len() - b.len(),
        edit_distance(a, b) >= b.len() - a.len(),
    decreases a.len() + b.len(),
{
    if a.len() > 0 && b.len() > 0 {
        lemma_edit_distance_at_least_length_gap(a.drop_last(), b);
        lemma_edit_distance_at_least_length_gap(a, b.drop_last());
        lemma_edit_distance_at_least_length_gap(a.drop_last(), b.drop_last());
    }
}

/// The distance is at least the difference of the names' byte lengths.
pub proof fn law_levenshtein_at_least_length_gap(a: Seq<char>, b: Seq<char>)
    ensures
        levenshtein(a, b) >= utf8(a).len() - utf8(b).len(),
        levenshtein(a, b) >= utf8(b).len() - utf8(a).len(),
{
    lemma_edit_distance_at_least_length_gap(lower_bytes(utf8(a)), lower_bytes(utf8(b)));
}

/// A suggestion is always within the threshold and no farther than any
/// other candidate.
pub proof fn law_suggestion_is_closest(name: Seq<char>, candidates: Seq<Seq<char>>, threshold: nat, i: int)
    requires
        is_best_suggestion(name, candidates, threshold, i),
    ensures
        levenshtein(name, candidates[i]) <= threshold,
        forall|j: int| 0 <= j < candidates.len() ==> levenshtein(name, #[trigger] candidates[j]) >= levenshtein(name, candidates[i]),
{
    assert forall|j: int| 0 <= j < candidates.len() implies levenshtein(name, #[trigger] candidates[j]) >= levenshtein(name, candidates[i]) by {
        if j < i {
        } else if j > i {
        }
    }
}

} // verus!
