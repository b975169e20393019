//! Enumeration and integer encoding of binary contexts.
//!
//! An order-k Markov model conditions on the k preceding symbols, its
//! "context". A context of length k is a bit pattern, and there are exactly
//! 2^k of them; the parameter table of a theory is indexed by the integer code
//! of the context, most significant bit first, with `ZERO` before `ONE`.

use vstd::prelude::*;

verus! {

/// The symbol written `0` in observed data.
pub const ZERO: bool = false;

/// The symbol written `1` in observed data.
pub const ONE: bool = true;

/// The number of distinct binary contexts of length `k`, that is 2^k.
pub open spec fn context_count(k: nat) -> nat
    decreases k,
{
    if k == 0 {
        1nat
    } else {
        2 * context_count((k - 1) as nat)
    }
}

/// The integer code of a context: its bits read as a binary numeral, most
/// significant bit first, with `ZERO` as 0 and `ONE` as 1.
pub open spec fn context_code(s: Seq<bool>) -> nat
    decreases s.len(),
{
    if s.len() == 0 {
        0nat
    } else {
        2 * context_code(s.drop_last()) + (if s.last() {
            1nat
        } else {
            0nat
        })
    }
}

pub proof fn lemma_context_count_pos(k: nat)
    ensures
        context_count(k) >= 1,
    decreases k,
{
    if k > 0 {
        lemma_context_count_pos((k - 1) as nat);
    }
}

pub proof fn lemma_context_count_increases(a: nat, b: nat)
    requires
        a <= b,
    ensures
        context_count(a) <= context_count(b),
    decreases b,
{
    lemma_context_count_pos(a);
    if a < b {
        lemma_context_count_increases(a, (b - 1) as nat);
    }
}

/// Every context of length k has its slot in an order-k table: its code is
/// below the number of contexts of its length.
pub proof fn lemma_context_code_bound(s: Seq<bool>)
    ensures
        context_code(s) < context_count(s.len()),
    decreases s.len(),
{
    if s.len() > 0 {
        lemma_context_code_bound(s.drop_last());
    }
}

/// Every slot of an order-k table names a context: each code below 2^k is
/// the code of some context of length k — by injectivity, of exactly one.
/// With the bound and injectivity lemmas: a table with one entry per code
/// below 2^k holds every context of length k exactly once.
pub proof fn lemma_context_code_onto(k: nat, c: nat)
    requires
        c < context_count(k),
    ensures
        exists|s: Seq<bool>| s.len() == k && context_code(s) == c,
    decreases k,
{
    if k == 0 {
        let s = Seq::<bool>::empty();
        assert(s.len() == 0 && context_code(s) == 0);
    } else {
        let c2 = c / 2;
        assert(c2 < context_count((k - 1) as nat));
        lemma_context_code_onto((k - 1) as nat, c2);
        let s2 = choose|s: Seq<bool>| s.len() == k - 1 && context_code(s) == c2;
        let bit = c % 2 == 1;
        lemma_context_code_push(s2, bit);
        let s = s2.push(bit);
        assert(s.len() == k && context_code(s) == c);
    }
}

/// Appending one symbol shifts the code left and adds the new bit.
pub proof fn lemma_context_code_push(s: Seq<bool>, b: bool)
    ensures
        context_code(s.push(b)) == 2 * context_code(s) + (if b {
            1nat
        } else {
            0nat
        }),
{
    assert(s.push(b).drop_last() =~= s);
    assert(s.push(b).last() == b);
}

/// Two contexts of the same length with the same code are the same context:
/// the code is a faithful name for the context. Together with the table shape
/// that `MarkovTheory` guarantees, this is what makes "one entry per code"
/// mean "one entry per distinct context".
pub proof fn lemma_context_code_injective(s1: Seq<bool>, s2: Seq<bool>)
    requires
        s1.len() == s2.len(),
        context_code(s1) == context_code(s2),
    ensures
        s1 == s2,
    decreases s1.len(),
{
    if s1.len() == 0 {
        assert(s1 =~= s2);
    } else {
        let b1: nat = if s1.last() {
            1nat
        } else {
            0nat
        };
        let b2: nat = if s2.last() {
            1nat
        } else {
            0nat
        };
        assert(2 * context_code(s1.drop_last()) + b1 == 2 * context_code(s2.drop_last()) + b2);
        assert(b1 == b2);
        assert(s1.last() == s2.last());
        lemma_context_code_injective(s1.drop_last(), s2.drop_last());
        assert(s1 =~= s1.drop_last().push(s1.last()));
        assert(s2 =~= s2.drop_last().push(s2.last()));
    }
}

/// `context_count(31)` written out, for bounds on table sizes.
pub proof fn lemma_context_count_31()
    ensures
        context_count(31) == 0x8000_0000nat,
{
    reveal_with_fuel(context_count, 32);
}

/// `context_count(63)` written out, for bounds against the machine word.
pub proof fn lemma_context_count_63()
    ensures
        context_count(63) == 0x8000_0000_0000_0000nat,
{
    reveal_with_fuel(context_count, 64);
}

/// The integer floor of the base-2 logarithm: the largest `r` with
/// 2^r <= x.
pub fn log2(x: usize) -> (r: usize)
    requires
        x >= 1,
    ensures
        context_count(r as nat) <= x < context_count((r + 1) as nat),
{
    let mut v: usize = x;
    let mut r: usize = 0;
    proof {
        assert(context_count(0nat) == 1);
    }
    while v >= 2
        invariant
            v >= 1,
            r < 64,
            context_count(r as nat) * v <= x,
            x < context_count(r as nat) * (v + 1),
        decreases v,
    {
        proof {
            lemma_context_count_pos(r as nat);
            // One halving step keeps the bracketing product invariant.
            assert(context_count((r + 1) as nat) * (v / 2) <= context_count(r as nat) * v
                && context_count(r as nat) * (v + 1) <= context_count((r + 1) as nat) * (v / 2
                + 1)) by (nonlinear_arith)
                requires
                    v >= 2,
                    context_count((r + 1) as nat) == 2 * context_count(r as nat),
                    context_count(r as nat) >= 1,
            ;
            // The code cannot take 64 doublings: 2^64 exceeds any usize.
            if r + 1 >= 64 {
                lemma_context_count_increases(63, r as nat);
                lemma_context_count_63();
                assert(context_count(r as nat) * v >= 0x1_0000_0000_0000_0000) by (
                nonlinear_arith)
                    requires
                        v >= 2,
                        context_count(r as nat) >= 0x8000_0000_0000_0000,
                ;
                assert(false);
            }
        }
        v = v / 2;
        r = r + 1;
    }
    proof {
        lemma_context_count_pos(r as nat);
        assert(v == 1);
        assert(context_count(r as nat) * v == context_count(r as nat) && context_count(r as nat)
            * (v + 1) == 2 * context_count(r as nat)) by (nonlinear_arith)
            requires
                v == 1,
        ;
        assert(context_count((r + 1) as nat) == 2 * context_count(r as nat));
    }
    r
}

/// The number of contexts of length `k`, as a machine integer: the size of
/// an order-k parameter table.
pub fn count_contexts(k: usize) -> (r: usize)
    requires
        k < 32,
    ensures
        r == context_count(k as nat),
        r <= 0x8000_0000usize,
{
    proof {
        lemma_context_count_31();
    }
    let mut r: usize = 1;
    let mut t: usize = 0;
    while t < k
        invariant
            t <= k,
            r == context_count(t as nat),
            r <= 0x8000_0000usize,
        decreases k - t,
    {
        proof {
            lemma_context_count_increases((t + 1) as nat, 31);
        }
        r = 2 * r;
        t = t + 1;
    }
    r
}

/// A copy of `source` with one more symbol at the end.
fn extended(source: &Vec<bool>, bit: bool) -> (r: Vec<bool>)
    ensures
        r@ == source@.push(bit),
{
    let mut r: Vec<bool> = Vec::new();
    let mut i: usize = 0;
    while i < source.len()
        invariant
            i <= source@.len(),
            r@ == source@.subrange(0, i as int),
        decreases source@.len() - i,
    {
        r.push(source[i]);
        proof {
            assert(r@ =~= source@.subrange(0, i + 1));
        }
        i = i + 1;
    }
    r.push(bit);
    proof {
        assert(source@.subrange(0, source@.len() as int) =~= source@);
    }
    r
}

/// All 2^n binary patterns of length `n`, in lexicographic order with `ZERO`
/// before `ONE`; the pattern at position `i` is the one whose code is `i`.
/// For `n == 0` the single empty pattern, the context of an order-0 model.
pub fn bit_product(n: usize) -> (r: Vec<Vec<bool>>)
    requires
        n < 32,
    ensures
        r@.len() == context_count(n as nat),
        forall|i: int|
            0 <= i < r@.len() ==> (#[trigger] r@[i])@.len() == n as nat && context_code(r@[i]@)
                == i,
{
    let mut result: Vec<Vec<bool>> = Vec::new();
    result.push(Vec::new());
    assert(result@[0]@ =~= Seq::<bool>::empty());
    let mut t: usize = 0;
    while t < n
        invariant
            t <= n,
            result@.len() == context_count(t as nat),
            result@.len() <= 0x8000_0000usize,
            forall|i: int|
                0 <= i < result@.len() ==> (#[trigger] result@[i])@.len() == t as nat
                    && context_code(result@[i]@) == i,
        decreases n - t,
    {
        proof {
            lemma_context_count_increases((t + 1) as nat, 31);
            lemma_context_count_31();
        }
        let mut iteration: Vec<Vec<bool>> = Vec::new();
        let mut j: usize = 0;
        while j < result.len()
            invariant
                j <= result@.len(),
                iteration@.len() == 2 * j,
                forall|i: int|
                    0 <= i < iteration@.len() ==> (#[trigger] iteration@[i])@.len() == (t
                        + 1) as nat && context_code(iteration@[i]@) == i,
            decreases result@.len() - j,
        {
            let with_zero = extended(&result[j], ZERO);
            let with_one = extended(&result[j], ONE);
            proof {
                lemma_context_code_push(result@[j as int]@, ZERO);
                lemma_context_code_push(result@[j as int]@, ONE);
            }
            iteration.push(with_zero);
            iteration.push(with_one);
            j = j + 1;
        }
        result = iteration;
        t = t + 1;
    }
    result
}

} // verus!
