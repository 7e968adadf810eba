use vstd::prelude::*;

verus! {

/// The largest item of `array`.
pub fn find_max(array: &[i32; 10]) -> (r: i32)
    ensures
        exists|k: int| 0 <= k < 10 && array@[k] == r,
        forall|k: int| 0 <= k < 10 ==> array@[k] <= r,
{
    let mut best = array[0];
    let mut i: usize = 1;
    while i < 10
        invariant
            1 <= i <= 10,
            array@.len() == 10,
            exists|k: int| 0 <= k < i && array@[k] == best,
            forall|k: int| 0 <= k < i ==> array@[k] <= best,
        decreases 10 - i,
    {
        if array[i] > best {
            best = array[i];
        }
        i += 1;
    }
    best
}

/// `n` has no divisor between 2 and `n - 1` and is not 1. By this reading 0
/// counts too, as plain trial division has it.
pub open spec fn trial_prime(n: nat) -> bool {
    n != 1 && forall|d: nat| 2 <= d < n ==> #[trigger] (n % d) != 0
}

/// How many numbers in `2..x` are prime.
pub open spec fn prime_count(x: nat) -> nat
    decreases x,
{
    if x <= 2 {
        0
    } else {
        prime_count((x - 1) as nat) + if trial_prime((x - 1) as nat) { 1nat } else { 0nat }
    }
}

proof fn lemma_small_divisor(n: nat, d: nat, e: nat)
    requires
        2 <= e < n,
        n % e == 0,
        d * d > n,
        d >= 2,
    ensures
        exists|f: nat| 2 <= f < d && #[trigger] (n % f) == 0,
{
    let q = n / e;
    assert(n == e * q) by {
        vstd::arithmetic::div_mod::lemma_fundamental_div_mod(n as int, e as int);
    }
    assert(q >= 1) by (nonlinear_arith)
        requires n == e * q, n >= 2, e >= 2;
    assert(q >= 2) by (nonlinear_arith)
        requires n == e * q, e < n, q >= 1;
    if e < d {
        assert(n % e == 0);
    } else {
        assert(q < d) by (nonlinear_arith)
            requires n == e * q, e >= d, d * d > n, q >= 0, d >= 2;
        assert(n % q == 0) by {
            vstd::arithmetic::div_mod::lemma_mod_multiples_basic(e as int, q as int);
            assert(e * q == q * e) by (nonlinear_arith);
        }
        assert(2 <= q < d && n % q == 0);
    }
}

/// Whether `n` is prime, by trial division up to its square root.
pub fn is_prime(n: u32) -> (r: bool)
    ensures
        r == trial_prime(n as nat),
{
    if n == 1 {
        return false;
    }
    let mut d: u64 = 2;
    while d * d <= n as u64
        invariant
            2 <= d <= 65536,
            d * d <= 0x1_0000_0000,
            n != 1,
            forall|f: nat| 2 <= f < d ==> #[trigger] ((n as nat) % f) != 0,
        decreases n as u64 + 1 - d,
    {
        assert(d < n) by (nonlinear_arith)
            requires d * d <= n as u64, d >= 2;
        if (n as u64) % d == 0 {
            return false;
        }
        assert((n as nat) % (d as nat) != 0);
        assert(d <= 65535) by (nonlinear_arith)
            requires d * d <= n as u64, n <= u32::MAX, d >= 2;
        d += 1;
        assert(d * d <= 0x1_0000_0000) by (nonlinear_arith)
            requires d <= 65536;
    }
    proof {
        assert forall|e: nat| 2 <= e < n implies #[trigger] ((n as nat) % e) != 0 by {
            if (n as nat) % e == 0 {
                lemma_small_divisor(n as nat, d as nat, e);
            }
        }
    }
    true
}

/// The `k`-th prime, counting 2 as the first. The answer must fit in `u32`.
pub fn get_nth_prime(k: u32) -> (r: u32)
    requires
        1 <= k,
        k <= prime_count(u32::MAX as nat),
    ensures
        r >= 2,
        trial_prime(r as nat),
        prime_count(r as nat) == k - 1,
{
    let mut cnt: u32 = 0;
    let mut x: u32 = 2;
    loop
        invariant
            2 <= x <= u32::MAX,
            cnt == prime_count(x as nat),
            cnt < k,
            k <= prime_count(u32::MAX as nat),
        decreases u32::MAX - x,
    {
        if is_prime(x) {
            cnt += 1;
        }
        assert(cnt == prime_count(x as nat + 1));
        if cnt == k {
            return x;
        }
        x += 1;
    }
}

/// Sorted in non-decreasing order.
pub open spec fn sorted(s: Seq<i32>) -> bool {
    forall|u: int, v: int| 0 <= u <= v < s.len() ==> s[u] <= s[v]
}

/// Finds `key` in `a` by halving. Whatever `a` holds, a position returned
/// holds `key`; on sorted input it is the last position that does, and
/// `None` means that `key` is absent.
pub fn bin_search_position(a: &[i32; 10], key: i32) -> (r: Option<usize>)
    ensures
        r matches Some(k) ==> k < 10 && a@[k as int] == key,
        sorted(a@) ==> (r is None <==> !a@.contains(key)),
        sorted(a@) ==> (r matches Some(k) ==> forall|u: int| k < u < 10 ==> a@[u] != key),
{
    let mut l: usize = 0;
    let mut r: usize = 10;
    while r - l > 1
        invariant
            a@.len() == 10,
            l < r <= 10,
            sorted(a@) ==> (l == 0 || a@[l as int] <= key),
            sorted(a@) ==> (r == 10 || a@[r as int] > key),
            sorted(a@) ==> forall|u: int| 0 <= u < l ==> a@[u] <= key,
            sorted(a@) ==> forall|u: int| r <= u < 10 ==> a@[u] > key,
        decreases r - l,
    {
        let m = (l + r) / 2;
        if a[m] <= key {
            l = m;
        } else {
            r = m;
        }
    }
    if a[l] == key {
        Some(l)
    } else {
        proof {
            if sorted(a@) {
                assert forall|u: int| 0 <= u < 10 implies a@[u] != key by {
                    if u < l {
                        assert(a@[u] <= a@[l as int]);
                        if l > 0 {
                            assert(a@[l as int] <= key);
                        }
                        if a@[u] == key {
                            assert(a@[l as int] >= key);
                        }
                    }
                }
            }
        }
        None
    }
}

} // verus!
