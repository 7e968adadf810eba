use vstd::prelude::*;

verus! {

/// How two lists relate as contiguous sublists of each other.
#[derive(Debug, Copy, Clone, PartialEq, Eq, Structural)]
pub enum Comparison {
    /// Each list is a sublist of the other.
    Equal,
    /// The first list is a sublist of the second, not the other way round.
    Sublist,
    /// The second list is a sublist of the first, not the other way round.
    Superlist,
    /// Neither list is a sublist of the other.
    Other,
}

/// The first `k` items of `a` are the last `k` items of `b[..j]`.
pub open spec fn suffix_match(a: Seq<u32>, b: Seq<u32>, j: int, k: int) -> bool {
    &&& 0 <= k <= a.len()
    &&& k <= j <= b.len()
    &&& forall|t: int| 0 <= t < k ==> #[trigger] a[t] == b[j - k + t]
}

/// `k` is the longest proper border of `a[..n]`: the longest prefix of it,
/// shorter than `n`, that is also its suffix.
pub open spec fn is_longest_border(a: Seq<u32>, n: int, k: int) -> bool {
    &&& k < n
    &&& suffix_match(a, a, n, k)
    &&& forall|m: int| m < n && #[trigger] suffix_match(a, a, n, m) ==> m <= k
}

/// `a` occurs in `b` starting at position `s`.
pub open spec fn occurs_at(a: Seq<u32>, b: Seq<u32>, s: int) -> bool {
    &&& 0 <= s
    &&& s + a.len() <= b.len()
    &&& forall|t: int| 0 <= t < a.len() ==> #[trigger] b[s + t] == a[t]
}

/// `a` is a non-empty contiguous run of `b`.
pub open spec fn sublist_of(a: Seq<u32>, b: Seq<u32>) -> bool {
    a.len() > 0 && exists|s: int| occurs_at(a, b, s)
}

pub open spec fn comparison_of(a: Seq<u32>, b: Seq<u32>) -> Comparison {
    match (sublist_of(a, b), sublist_of(b, a)) {
        (true, true) => Comparison::Equal,
        (true, false) => Comparison::Sublist,
        (false, true) => Comparison::Superlist,
        (false, false) => Comparison::Other,
    }
}

/// Entry `m` of `p`, for each `m < upto`, is the longest proper border of `a[..m + 1]`.
pub open spec fn is_prefix_table(a: Seq<u32>, p: Seq<usize>, upto: int) -> bool {
    forall|m: int| 0 <= m < upto ==> is_longest_border(a, m + 1, #[trigger] p[m] as int)
}

proof fn lemma_shorter_match_is_border(a: Seq<u32>, b: Seq<u32>, j: int, i: int, k: int)
    requires
        suffix_match(a, b, j, i),
        suffix_match(a, b, j, k),
        k < i,
    ensures
        suffix_match(a, a, i, k),
{
    assert forall|t: int| 0 <= t < k implies #[trigger] a[t] == a[i - k + t] by {
        assert(a[t] == b[j - k + t]);
        assert(a[i - k + t] == b[j - i + (i - k + t)]);
    }
}

proof fn lemma_extend(a: Seq<u32>, b: Seq<u32>, j: int, k: int)
    requires
        suffix_match(a, b, j, k),
        k < a.len(),
        j < b.len(),
        a[k] == b[j],
    ensures
        suffix_match(a, b, j + 1, k + 1),
{
    assert forall|t: int| 0 <= t < k + 1 implies #[trigger] a[t] == b[j + 1 - (k + 1) + t] by {
        if t < k {
            assert(a[t] == b[j - k + t]);
        }
    }
}

proof fn lemma_shrink(a: Seq<u32>, b: Seq<u32>, j: int, k: int)
    requires
        suffix_match(a, b, j + 1, k),
        k > 0,
    ensures
        suffix_match(a, b, j, k - 1),
        a[k - 1] == b[j],
{
    assert(a[k - 1] == b[j + 1 - k + (k - 1)]);
    assert forall|t: int| 0 <= t < k - 1 implies #[trigger] a[t] == b[j - (k - 1) + t] by {
        assert(a[t] == b[j + 1 - k + t]);
    }
}

/// One step of the matching automaton: given that `i` is the longest match of a
/// prefix of `a` ending at `b[..j]`, and that every longer match fails on `b[j]`,
/// the step's result is the longest match ending at `b[..j + 1]`.
proof fn lemma_step_is_longest(a: Seq<u32>, b: Seq<u32>, j: int, i: int, r: int, lim: int)
    requires
        i < lim <= a.len(),
        j < b.len(),
        suffix_match(a, b, j, i),
        forall|k: int| i < k < lim && #[trigger] suffix_match(a, b, j, k) ==> a[k] != b[j],
        i == 0 || a[i] == b[j],
        r == (if a[i] == b[j] { i + 1 } else { i }),
    ensures
        suffix_match(a, b, j + 1, r),
        forall|k: int| k <= lim && #[trigger] suffix_match(a, b, j + 1, k) ==> k <= r,
{
    if a[i] == b[j] {
        lemma_extend(a, b, j, i);
    } else {
        assert(suffix_match(a, b, j + 1, 0));
    }
    assert forall|k: int| k <= lim && #[trigger] suffix_match(a, b, j + 1, k) implies k <= r by {
        if k > 0 {
            lemma_shrink(a, b, j, k);
            if k - 1 > i {
                assert(suffix_match(a, b, j, k - 1));
            }
        }
    }
}

/// For each position `m` of `a`, the length of the longest proper prefix of
/// `a[..m + 1]` that is also its suffix.
pub fn prefix_function(a: &[u32]) -> (p: Vec<usize>)
    ensures
        p@.len() == a@.len(),
        is_prefix_table(a@, p@, a@.len() as int),
{
    let mut p: Vec<usize> = Vec::new();
    let n = a.len();
    if n == 0 {
        return p;
    }
    let mut z: usize = 0;
    while z < n
        invariant
            z <= n,
            n == a@.len(),
            p@.len() == z,
            forall|m: int| 0 <= m < z ==> p@[m] == 0,
        decreases n - z,
    {
        p.push(0);
        z += 1;
    }
    assert(is_longest_border(a@, 1, 0)) by {
        assert forall|m: int| m < 1 && #[trigger] suffix_match(a@, a@, 1, m) implies m <= 0 by {}
    }
    let mut i: usize = 1;
    while i < n
        invariant
            1 <= i <= n,
            n == a@.len(),
            p@.len() == n,
            is_prefix_table(a@, p@, i as int),
        decreases n - i,
    {
        let mut cur = p[i - 1];
        assert(is_longest_border(a@, i as int, cur as int));
        while cur > 0 && a[cur] != a[i]
            invariant
                1 <= i < n,
                n == a@.len(),
                p@.len() == n,
                is_prefix_table(a@, p@, i as int),
                cur < i,
                suffix_match(a@, a@, i as int, cur as int),
                forall|k: int|
                    cur < k < i && #[trigger] suffix_match(a@, a@, i as int, k) ==> a@[k] != a@[i as int],
            decreases cur,
        {
            let next = p[cur - 1];
            proof {
                let c = cur as int;
                assert(is_longest_border(a@, c, next as int));
                let bd = next as int;
                assert(suffix_match(a@, a@, c, bd));
                assert forall|t: int| 0 <= t < bd implies #[trigger] a@[t] == a@[i - bd + t] by {
                    assert(a@[t] == a@[c - bd + t]);
                    assert(a@[c - bd + t] == a@[i - c + (c - bd + t)]);
                }
                assert forall|k: int|
                    bd < k < i && #[trigger] suffix_match(a@, a@, i as int, k) implies a@[k] != a@[i as int] by {
                    if k < c {
                        lemma_shorter_match_is_border(a@, a@, i as int, c, k);
                    }
                }
            }
            cur = next;
        }
        let ghost before = cur as int;
        if a[cur] == a[i] {
            cur += 1;
        }
        proof {
            lemma_step_is_longest(a@, a@, i as int, before, cur as int, i as int);
        }
        p.set(i, cur);
        proof {
            assert forall|m: int| 0 <= m < i + 1 implies is_longest_border(a@, m + 1, #[trigger] p@[m] as int) by {
                if m < i {
                    assert(is_longest_border(a@, m + 1, p@[m] as int));
                } else {
                    assert forall|q: int| q < m + 1 && #[trigger] suffix_match(a@, a@, m + 1, q) implies q <= p@[m] by {}
                }
            }
        }
        i += 1;
    }
    p
}

/// Whether `a` occurs as a contiguous run in `b`. An empty `a` is never
/// reported as a sublist; with a non-empty `b` it is not asked about.
pub fn is_sublist(a: &[u32], b: &[u32]) -> (r: bool)
    requires
        a@.len() > 0 || b@.len() == 0,
    ensures
        r == sublist_of(a@, b@),
{
    if a.len() > b.len() {
        return false;
    }
    if a.len() == 0 {
        return false;
    }
    let p = prefix_function(a);
    let mut i: usize = 0;
    let mut j: usize = 0;
    assert(suffix_match(a@, b@, 0, 0));
    assert forall|k: int| #[trigger] suffix_match(a@, b@, 0, k) implies k <= 0 by {}
    while j < b.len()
        invariant
            j <= b@.len(),
            a@.len() > 0,
            p@.len() == a@.len(),
            is_prefix_table(a@, p@, a@.len() as int),
            i < a@.len(),
            suffix_match(a@, b@, j as int, i as int),
            forall|k: int| #[trigger] suffix_match(a@, b@, j as int, k) ==> k <= i,
            forall|s: int| #[trigger] occurs_at(a@, b@, s) ==> s + a@.len() > j,
        decreases b@.len() - j,
    {
        let x = b[j];
        let ghost top = i as int;
        while i > 0 && x != a[i]
            invariant
                j < b@.len(),
                x == b@[j as int],
                p@.len() == a@.len(),
                is_prefix_table(a@, p@, a@.len() as int),
                i <= top < a@.len(),
                suffix_match(a@, b@, j as int, i as int),
                forall|k: int| #[trigger] suffix_match(a@, b@, j as int, k) ==> k <= top,
                forall|k: int|
                    i < k < a@.len() && #[trigger] suffix_match(a@, b@, j as int, k) ==> a@[k] != b@[j as int],
            decreases i,
        {
            let next = p[i - 1];
            proof {
                let c = i as int;
                assert(is_longest_border(a@, c, next as int));
                let bd = next as int;
                assert(suffix_match(a@, a@, c, bd));
                assert forall|t: int| 0 <= t < bd implies #[trigger] a@[t] == b@[j - bd + t] by {
                    assert(a@[t] == a@[c - bd + t]);
                    assert(a@[c - bd + t] == b@[j - c + (c - bd + t)]);
                }
                assert forall|k: int|
                    bd < k < a@.len() && #[trigger] suffix_match(a@, b@, j as int, k) implies a@[k] != b@[j as int] by {
                    if k < c {
                        lemma_shorter_match_is_border(a@, b@, j as int, c, k);
                    }
                }
            }
            i = next;
        }
        let ghost before = i as int;
        if x == a[i] {
            i += 1;
        }
        proof {
            lemma_step_is_longest(a@, b@, j as int, before, i as int, a@.len() as int);
        }
        if i == a.len() {
            proof {
                let s = j + 1 - a@.len();
                assert forall|t: int| 0 <= t < a@.len() implies #[trigger] b@[s + t] == a@[t] by {
                    assert(a@[t] == b@[j + 1 - a@.len() + t]);
                }
                assert(occurs_at(a@, b@, s));
            }
            return true;
        }
        proof {
            assert forall|s: int| #[trigger] occurs_at(a@, b@, s) implies s + a@.len() > j + 1 by {
                if s + a@.len() == j + 1 {
                    assert forall|t: int| 0 <= t < a@.len() implies #[trigger] a@[t] == b@[j + 1 - a@.len() + t] by {
                        assert(b@[s + t] == a@[t]);
                    }
                    assert(suffix_match(a@, b@, j + 1, a@.len() as int));
                }
            }
        }
        j += 1;
    }
    false
}

/// How `a` and `b` relate as sublists of each other. Both must be empty or
/// both non-empty.
pub fn compare(a: &[u32], b: &[u32]) -> (r: Comparison)
    requires
        (a@.len() == 0) == (b@.len() == 0),
    ensures
        r == comparison_of(a@, b@),
{
    match (is_sublist(a, b), is_sublist(b, a)) {
        (true, true) => Comparison::Equal,
        (true, false) => Comparison::Sublist,
        (false, true) => Comparison::Superlist,
        (false, false) => Comparison::Other,
    }
}

} // verus!
