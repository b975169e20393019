//! A k-th order binary Markov chain model and its estimation from data.
//!
//! A theory of degree k maps each of the 2^k contexts (the k preceding
//! symbols, indexed by their integer code) to a conditional distribution over
//! the next symbol. The distribution is held as a pair of weights: the weight
//! of the `ZERO` continuation and of the `ONE` continuation, so that
//! `P(ZERO | context)` is the first weight over their sum, an exact rational.
//! A context whose two weights are both zero is undefined: it never had a
//! chance in the data, and looking it up is an explicit error rather than an
//! unspecified division.

use vstd::prelude::*;

use crate::bits::BitSequence;
use crate::contexts::ONE;
use crate::contexts::ZERO;
use crate::contexts::bit_product;
use crate::contexts::context_code;
use crate::contexts::context_count;
use crate::contexts::count_contexts;
use crate::contexts::lemma_context_code_bound;
use crate::contexts::lemma_context_code_push;
use crate::contexts::lemma_context_count_31;
use crate::contexts::lemma_context_count_pos;
use crate::contexts::lemma_context_count_increases;

verus! {

/// Why an operation on a theory was refused.
#[derive(Clone, Copy, PartialEq, Eq, Structural, Debug)]
pub enum TheoryError {
    /// The requested degree cannot be satisfied: against the data length
    /// (estimation and scoring need windows of length degree + 1, sampling a
    /// warm start of degree symbols), against the table shape on direct
    /// construction, or against the machine (a parameter table of 2^degree
    /// entries must be addressable).
    DegreeOutOfRange,
    /// A context whose conditional distribution is undefined was looked up:
    /// it never occurred in the data the theory was fitted on.
    UndefinedTransition,
    /// Directly constructed parameters do not form conditional probability
    /// distributions: a pair does not sum to one.
    InvalidProbability,
}

/// The conditional distribution of one context: the weight of each of its
/// two continuations. `P(ZERO | context)` is `zero / (zero + one)` and
/// `P(ONE | context)` is `one / (zero + one)`; the two sum to one exactly.
/// Under maximum likelihood the weights are the observed continuation
/// counts. Both weights zero means the distribution is undefined.
#[derive(Clone, Copy, PartialEq, Eq, Structural, Debug)]
pub struct Parameter {
    /// The weight of the `ZERO` continuation.
    pub zero: u64,
    /// The weight of the `ONE` continuation.
    pub one: u64,
}

impl Parameter {
    /// The total weight of the context: under maximum likelihood, how many
    /// windows gave it a chance. The denominator of both conditional
    /// probabilities.
    pub open spec fn chances(self) -> int {
        self.zero + self.one
    }

    /// Whether the conditional distribution is defined at all.
    pub open spec fn is_defined(self) -> bool {
        self.chances() > 0
    }
}

/// One conditional probability as an exact fraction. The denominator is
/// positive wherever the library hands such a value out.
#[derive(Clone, Copy, PartialEq, Eq, Structural, Debug)]
pub struct Probability {
    pub numerator: u64,
    pub denominator: u64,
}

/// One entry for the direct construction of a theory: both conditional
/// probabilities of a context over a common denominator. Valid when the two
/// numerators sum to the denominator (the pair sums to one, and each lies in
/// [0, 1]); a zero denominator with zero numerators states an explicitly
/// undefined context.
#[derive(Clone, Copy, PartialEq, Eq, Structural, Debug)]
pub struct ProbabilityPair {
    pub zero_numerator: u64,
    pub one_numerator: u64,
    pub denominator: u64,
}

impl ProbabilityPair {
    /// Whether the entry forms a conditional probability distribution (or is
    /// explicitly undefined).
    pub open spec fn is_valid(self) -> bool {
        if self.denominator == 0 {
            self.zero_numerator == 0 && self.one_numerator == 0
        } else {
            self.zero_numerator + self.one_numerator == self.denominator
        }
    }
}

/// Whether the window of `data` at offset `i` (its `k + 1` symbols starting
/// there) has the context with code `c` and continues with the symbol `b`.
pub open spec fn window_matches(data: Seq<bool>, k: nat, c: nat, b: bool, i: int) -> bool {
    context_code(data.subrange(i, i + k)) == c && data[i + k] == b
}

/// Among the first `m` windows of length `k + 1`, how many have the context
/// with code `c` and continue with `b`.
pub open spec fn continuation_count_upto(data: Seq<bool>, k: nat, c: nat, b: bool, m: int) -> nat
    decreases m,
{
    if m <= 0 {
        0nat
    } else {
        continuation_count_upto(data, k, c, b, m - 1) + (if window_matches(data, k, c, b, m - 1) {
            1nat
        } else {
            0nat
        })
    }
}

/// Over all windows of length `k + 1` in `data`, how many have the context
/// with code `c` and continue with `b`. Zero when the data is shorter than
/// one window.
pub open spec fn continuation_count(data: Seq<bool>, k: nat, c: nat, b: bool) -> nat {
    continuation_count_upto(data, k, c, b, data.len() - k)
}

/// A k-th order Markov chain model: the degree k and one conditional
/// distribution per context of length k, indexed by context code.
pub struct MarkovTheory {
    /// The order k: how many preceding symbols the next one depends on.
    pub degree: usize,
    /// One entry per context of length `degree`, indexed by context code.
    pub parameters: Vec<Parameter>,
}

impl MarkovTheory {
    /// Well-formedness: the table has exactly one entry per context of
    /// length `degree`, the degree is addressable, and each entry's total
    /// weight fits the machine.
    pub open spec fn wf(self) -> bool {
        &&& self.degree < 32
        &&& self.parameters@.len() == context_count(self.degree as nat)
        &&& forall|c: int|
            0 <= c < self.parameters@.len() ==> (#[trigger] self.parameters@[c]).zero
                + self.parameters@[c].one <= u64::MAX
    }

    /// Whether at least one context has a defined distribution.
    pub open spec fn has_defined_context(self) -> bool {
        exists|c: int|
            0 <= c < self.parameters@.len() && (#[trigger] self.parameters@[c]).is_defined()
    }

    /// Whether every context has a defined distribution.
    pub open spec fn all_defined(self) -> bool {
        forall|c: int|
            0 <= c < self.parameters@.len() ==> (#[trigger] self.parameters@[c]).is_defined()
    }

    /// The code of the context governing the window of `data` at offset `i`.
    pub open spec fn window_context(self, data: Seq<bool>, i: int) -> nat {
        context_code(data.subrange(i, i + self.degree))
    }

    /// Whether the window of `data` at offset `i` is governed by a defined
    /// distribution.
    pub open spec fn window_defined(self, data: Seq<bool>, i: int) -> bool {
        self.parameters@[self.window_context(data, i) as int].is_defined()
    }

    /// The conditional probability this theory assigns to the window of
    /// `data` at offset `i`: P(next symbol | its context), as a fraction.
    pub open spec fn window_probability(self, data: Seq<bool>, i: int) -> Probability {
        let p = self.parameters@[self.window_context(data, i) as int];
        Probability {
            numerator: if data[i + self.degree] == ZERO {
                p.zero
            } else {
                p.one
            },
            denominator: (p.zero + p.one) as u64,
        }
    }

    /// A theory from explicit probability fractions, one entry per context
    /// of length `degree` in code order. Rejects a table of the wrong shape,
    /// and any entry whose pair does not sum to one.
    pub fn new(degree: usize, entries: &Vec<ProbabilityPair>) -> (r: Result<
        MarkovTheory,
        TheoryError,
    >)
        ensures
            degree >= 32 || entries@.len() != context_count(degree as nat) ==> r == Err::<
                MarkovTheory,
                TheoryError,
            >(TheoryError::DegreeOutOfRange),
            degree < 32 && entries@.len() == context_count(degree as nat) && !(forall|c: int|
                0 <= c < entries@.len() ==> (#[trigger] entries@[c]).is_valid()) ==> r == Err::<
                MarkovTheory,
                TheoryError,
            >(TheoryError::InvalidProbability),
            degree < 32 && entries@.len() == context_count(degree as nat) && (forall|c: int|
                0 <= c < entries@.len() ==> (#[trigger] entries@[c]).is_valid()) ==> r is Ok,
            r matches Ok(t) ==> {
                &&& t.wf()
                &&& t.degree == degree
                &&& forall|c: int|
                    0 <= c < entries@.len() ==> (#[trigger] t.parameters@[c]).zero
                        == entries@[c].zero_numerator && t.parameters@[c].one
                        == entries@[c].one_numerator
            },
    {
        if degree >= 32 {
            return Err(TheoryError::DegreeOutOfRange);
        }
        let size = count_contexts(degree);
        if entries.len() != size {
            return Err(TheoryError::DegreeOutOfRange);
        }
        let mut parameters: Vec<Parameter> = Vec::new();
        let mut c: usize = 0;
        while c < size
            invariant
                c <= size == entries@.len(),
                parameters@.len() == c,
                forall|j: int| 0 <= j < c ==> (#[trigger] entries@[j]).is_valid(),
                forall|j: int|
                    0 <= j < c ==> (#[trigger] parameters@[j]).zero == entries@[j].zero_numerator
                        && parameters@[j].one == entries@[j].one_numerator,
            decreases size - c,
        {
            let e = entries[c];
            let valid = if e.denominator == 0 {
                e.zero_numerator == 0 && e.one_numerator == 0
            } else {
                e.zero_numerator <= e.denominator && e.one_numerator == e.denominator
                    - e.zero_numerator
            };
            if !valid {
                return Err(TheoryError::InvalidProbability);
            }
            parameters.push(Parameter { zero: e.zero_numerator, one: e.one_numerator });
            c = c + 1;
        }
        Ok(MarkovTheory { degree, parameters })
    }

    /// Closed-form maximum likelihood fit of an order-`degree` model to the
    /// data: for every context, its stored weights are the exact counts of
    /// its `ZERO` and `ONE` continuations over all windows of length
    /// `degree + 1`, the observed conditional frequencies. One O(N) counting
    /// pass over the windows fills the table; every one of the 2^degree
    /// contexts has its entry, a context that never occurred keeping the
    /// undefined pair of zero weights. Refused when the data has no window
    /// of length `degree + 1`, or the table would not be addressable.
    pub fn maximum_likelihood_estimate(data: &BitSequence, degree: usize) -> (r: Result<
        MarkovTheory,
        TheoryError,
    >)
        ensures
            (r is Err) <==> (degree >= 32 || data@.len() < degree + 1),
            r is Err ==> r == Err::<MarkovTheory, TheoryError>(TheoryError::DegreeOutOfRange),
            r matches Ok(t) ==> {
                &&& t.wf()
                &&& t.degree == degree
                &&& forall|c: int|
                    0 <= c < context_count(degree as nat) ==> (#[trigger] t.parameters@[c]).zero
                        == continuation_count(data@, degree as nat, c as nat, ZERO)
                        && t.parameters@[c].one == continuation_count(
                        data@,
                        degree as nat,
                        c as nat,
                        ONE,
                    )
            },
    {
        if degree >= 32 {
            return Err(TheoryError::DegreeOutOfRange);
        }
        let n = data.len();
        if n < degree + 1 {
            return Err(TheoryError::DegreeOutOfRange);
        }
        let size = count_contexts(degree);
        let mut parameters: Vec<Parameter> = Vec::new();
        while parameters.len() < size
            invariant
                parameters@.len() <= size,
                forall|c: int|
                    0 <= c < parameters@.len() ==> #[trigger] parameters@[c] == (Parameter {
                        zero: 0u64,
                        one: 0u64,
                    }),
            decreases size - parameters@.len(),
        {
            parameters.push(Parameter { zero: 0, one: 0 });
        }
        let windows = n - degree;
        let mut i: usize = 0;
        while i < windows
            invariant
                i <= windows == data@.len() - degree,
                n == data@.len(),
                parameters@.len() == size == context_count(degree as nat),
                forall|c: int|
                    0 <= c < size ==> (#[trigger] parameters@[c]).zero == continuation_count_upto(
                        data@,
                        degree as nat,
                        c as nat,
                        ZERO,
                        i as int,
                    ) && parameters@[c].one == continuation_count_upto(
                        data@,
                        degree as nat,
                        c as nat,
                        ONE,
                        i as int,
                    ) && parameters@[c].zero + parameters@[c].one <= i,
            decreases windows - i,
        {
            let code = code_of_range(data, i, degree);
            let next = data.get(i + degree);
            let p = parameters[code];
            let updated = if next {
                Parameter { zero: p.zero, one: p.one + 1 }
            } else {
                Parameter { zero: p.zero + 1, one: p.one }
            };
            parameters[code] = updated;
            proof {
                assert forall|c: int, b: bool| 0 <= c < size implies #[trigger] continuation_count_upto(
                    data@,
                    degree as nat,
                    c as nat,
                    b,
                    i + 1,
                ) == continuation_count_upto(data@, degree as nat, c as nat, b, i as int) + (
                if window_matches(data@, degree as nat, c as nat, b, i as int) {
                    1nat
                } else {
                    0nat
                }) by {
                    assert(continuation_count_upto(data@, degree as nat, c as nat, b, i + 1)
                        == continuation_count_upto(data@, degree as nat, c as nat, b, (i + 1) - 1)
                        + (if window_matches(data@, degree as nat, c as nat, b, (i + 1) - 1) {
                        1nat
                    } else {
                        0nat
                    }));
                }
                assert forall|c: int, b: bool|
                    0 <= c < size && c != code implies !(#[trigger] window_matches(
                    data@,
                    degree as nat,
                    c as nat,
                    b,
                    i as int,
                )) by {}
            }
            i = i + 1;
        }
        Ok(MarkovTheory { degree, parameters })
    }

    /// The conditional probability the theory assigns to each window of the
    /// data, in offset order: exact fractions whose product is the
    /// likelihood of the data under the theory, and whose negative base-2
    /// logarithms sum to its log-loss (the two scoring forms agree by
    /// construction; the logarithmic form is the numerically stable one and
    /// is inherently real-valued, so both are left to the caller). Refused
    /// when the data has no window of length `degree + 1`, or some window's
    /// context is undefined.
    pub fn window_probabilities(&self, data: &BitSequence) -> (r: Result<
        Vec<Probability>,
        TheoryError,
    >)
        requires
            self.wf(),
        ensures
            data@.len() < self.degree + 1 ==> r == Err::<Vec<Probability>, TheoryError>(
                TheoryError::DegreeOutOfRange,
            ),
            data@.len() >= self.degree + 1 && !(forall|i: int|
                0 <= i < data@.len() - self.degree ==> #[trigger] self.window_defined(data@, i))
                ==> r == Err::<Vec<Probability>, TheoryError>(TheoryError::UndefinedTransition),
            data@.len() >= self.degree + 1 && (forall|i: int|
                0 <= i < data@.len() - self.degree ==> #[trigger] self.window_defined(data@, i))
                ==> r is Ok,
            r matches Ok(v) ==> {
                &&& v@.len() == data@.len() - self.degree
                &&& forall|i: int|
                    0 <= i < v@.len() ==> #[trigger] v@[i] == self.window_probability(data@, i)
                &&& forall|i: int| 0 <= i < v@.len() ==> (#[trigger] v@[i]).denominator > 0
            },
    {
        let n = data.len();
        let degree = self.degree;
        if n < degree + 1 {
            return Err(TheoryError::DegreeOutOfRange);
        }
        let windows = n - degree;
        let mut v: Vec<Probability> = Vec::new();
        let mut i: usize = 0;
        while i < windows
            invariant
                i <= windows == data@.len() - degree,
                n == data@.len(),
                degree == self.degree,
                v@.len() == i,
                forall|j: int| 0 <= j < i ==> #[trigger] self.window_defined(data@, j),
                forall|j: int|
                    0 <= j < i ==> #[trigger] v@[j] == self.window_probability(data@, j)
                        && v@[j].denominator > 0,
            decreases windows - i,
        {
            let code = code_of_range(data, i, degree);
            let p = self.parameters[code];
            let den = p.zero + p.one;
            if den == 0 {
                proof {
                    assert(!self.window_defined(data@, i as int));
                }
                return Err(TheoryError::UndefinedTransition);
            }
            let next = data.get(i + degree);
            let num = if next {
                p.one
            } else {
                p.zero
            };
            v.push(Probability { numerator: num, denominator: den });
            i = i + 1;
        }
        Ok(v)
    }

    /// A synthetic ground-truth theory: for each context, P(ZERO) is drawn
    /// uniformly (a 32-bit draw over the fixed denominator 2^32) and P(ONE)
    /// is its complement, so each pair sums to one exactly and every context
    /// is defined. For constructing models to generate test data from, not
    /// an inference operation.
    pub fn uniform_random_theory(degree: usize) -> (r: Result<MarkovTheory, TheoryError>)
        ensures
            (r is Err) <==> degree >= 32,
            r is Err ==> r == Err::<MarkovTheory, TheoryError>(TheoryError::DegreeOutOfRange),
            r matches Ok(t) ==> {
                &&& t.wf()
                &&& t.degree == degree
                &&& forall|c: int|
                    0 <= c < t.parameters@.len() ==> (#[trigger] t.parameters@[c]).chances()
                        == 0x1_0000_0000
                &&& t.all_defined()
            },
    {
        if degree >= 32 {
            return Err(TheoryError::DegreeOutOfRange);
        }
        let size = count_contexts(degree);
        let mut parameters: Vec<Parameter> = Vec::new();
        let mut c: usize = 0;
        while c < size
            invariant
                c <= size,
                parameters@.len() == c,
                forall|j: int|
                    0 <= j < c ==> (#[trigger] parameters@[j]).chances() == 0x1_0000_0000,
            decreases size - c,
        {
            let w = random_u32();
            parameters.push(drawn_parameter(w));
            c = c + 1;
        }
        Ok(MarkovTheory { degree, parameters })
    }

    /// A sequence of length `n` generated from this theory. The start is
    /// "warm": one draw picks the seed context uniformly among the defined
    /// contexts (for a theory whose pairs are probabilities summing to one,
    /// this equals a draw over the (context, continuation) pairs weighted by
    /// their stored values; for a count-weighted fit it is a further
    /// simplification) — either way an approximation of the chain's
    /// stationary distribution, not a true stationary draw. The seed is the
    /// context's symbols; from there each step draws the next symbol against
    /// P(ZERO | last degree symbols), as `next_symbol` states. Refused when
    /// `n` is not above the degree; a walk that reaches an undefined context
    /// (possible after fitting on insufficient data) fails rather than
    /// panics, and cannot fail when every context is defined.
    pub fn sample(&self, n: usize) -> (r: Result<BitSequence, TheoryError>)
        requires
            self.wf(),
        ensures
            n <= self.degree ==> r == Err::<BitSequence, TheoryError>(
                TheoryError::DegreeOutOfRange,
            ),
            n > self.degree && !self.has_defined_context() ==> r == Err::<
                BitSequence,
                TheoryError,
            >(TheoryError::UndefinedTransition),
            n > self.degree && self.all_defined() ==> r is Ok,
            r matches Ok(s) ==> {
                &&& s@.len() == n
                &&& context_code(s@.subrange(0, self.degree as int)) < context_count(
                    self.degree as nat,
                )
                &&& self.parameters@[context_code(s@.subrange(0, self.degree as int)) as int].is_defined()
            },
    {
        let degree = self.degree;
        if n <= degree {
            return Err(TheoryError::DegreeOutOfRange);
        }
        let size = count_contexts(degree);
        let patterns = bit_product(degree);
        let mut starts: Vec<usize> = Vec::new();
        let mut c: usize = 0;
        while c < size
            invariant
                c <= size == self.parameters@.len(),
                forall|j: int|
                    0 <= j < starts@.len() ==> 0 <= #[trigger] starts@[j] < size
                        && self.parameters@[starts@[j] as int].is_defined(),
                starts@.len() == 0 ==> forall|c2: int|
                    0 <= c2 < c ==> !(#[trigger] self.parameters@[c2]).is_defined(),
            decreases size - c,
        {
            let p = self.parameters[c];
            if p.zero + p.one > 0 {
                starts.push(c);
            }
            c = c + 1;
        }
        if starts.len() == 0 {
            proof {
                lemma_context_count_pos(degree as nat);
                assert(!(self.parameters@[0]).is_defined());
            }
            return Err(TheoryError::UndefinedTransition);
        }
        let roll = random_u64();
        let idx = seed_choice(roll, starts.len());
        let code = starts[idx];
        let prefix = &patterns[code];
        let mut result = BitSequence::new();
        let mut j: usize = 0;
        while j < degree
            invariant
                j <= degree == prefix@.len(),
                result@ == prefix@.subrange(0, j as int),
            decreases degree - j,
        {
            result.push(prefix[j]);
            proof {
                assert(result@ =~= prefix@.subrange(0, j + 1));
            }
            j = j + 1;
        }
        proof {
            assert(prefix@.subrange(0, prefix@.len() as int) =~= prefix@);
            assert(result@.subrange(0, degree as int) =~= prefix@);
        }
        while result.len() < n
            invariant
                self.wf(),
                degree == self.degree,
                size == self.parameters@.len(),
                degree <= result@.len() <= n,
                result@.len() <= usize::MAX,
                result@.subrange(0, degree as int) == prefix@,
                context_code(prefix@) == code < size,
                self.parameters@[code as int].is_defined(),
            decreases n - result@.len(),
        {
            let len = result.len();
            let step_code = code_of_range(&result, len - degree, degree);
            let p = self.parameters[step_code];
            if p.zero + p.one == 0 {
                return Err(TheoryError::UndefinedTransition);
            }
            let roll2 = random_u64();
            let bit = next_symbol(p, roll2);
            result.push(bit);
            proof {
                assert(result@.subrange(0, degree as int) =~= prefix@);
            }
        }
        Ok(result)
    }
}

/// One generative step of the sampler, with the draw as a plain input:
/// reading the roll as a uniform point of [0, 1) in 64-bit fixed point, the
/// symbol is `ZERO` exactly when that point falls below the stored
/// P(ZERO | context), the fraction `zero / (zero + one)` — the comparison
/// `roll / 2^64 < zero / chances` cross-multiplied into exact integers.
pub fn next_symbol(p: Parameter, roll: u64) -> (b: bool)
    requires
        p.is_defined(),
        p.chances() <= u64::MAX,
    ensures
        (b == ZERO) <==> (roll as int) * p.chances() < (p.zero as int)
            * 0x1_0000_0000_0000_0000,
{
    let den = p.zero + p.one;
    proof {
        assert((roll as int) * (den as int) <= u64::MAX * u64::MAX) by (nonlinear_arith)
            requires
                roll <= u64::MAX,
                den <= u64::MAX,
        ;
    }
    let scaled = (roll as u128) * (den as u128);
    let threshold = (p.zero as u128) * 0x1_0000_0000_0000_0000u128;
    if scaled < threshold {
        ZERO
    } else {
        ONE
    }
}

/// The warm-start choice, with the draw as a plain input: the roll picks a
/// position among the `count` defined contexts by its remainder, a uniform
/// choice up to the negligible 64-bit modulo bias.
fn seed_choice(roll: u64, count: usize) -> (idx: usize)
    requires
        count >= 1,
    ensures
        idx == (roll as int) % (count as int),
{
    (roll % (count as u64)) as usize
}

/// One drawn parameter of a synthetic theory, with the draw as a plain
/// input: the `ZERO` weight is the 32-bit draw itself and the `ONE` weight
/// its complement to the fixed denominator 2^32.
fn drawn_parameter(w: u32) -> (p: Parameter)
    ensures
        p.zero == w as int,
        p.one == 0x1_0000_0000 - w as int,
{
    Parameter { zero: w as u64, one: 0x1_0000_0000u64 - (w as u64) }
}

/// Relies on rand::random: a draw from the thread-local generator, uniform
/// over the 32-bit words. Nothing is promised of the value: every caller
/// states what holds of any outcome.
#[verifier::external_body]
fn random_u32() -> u32 {
    rand::random()
}

/// Relies on rand::random: a draw from the thread-local generator, uniform
/// over the 64-bit words. Nothing is promised of the value: every caller
/// states what holds of any outcome.
#[verifier::external_body]
fn random_u64() -> u64 {
    rand::random()
}

/// The code of the context formed by the `k` symbols of `data` starting at
/// `lo`.
fn code_of_range(data: &BitSequence, lo: usize, k: usize) -> (code: usize)
    requires
        lo + k <= data@.len(),
        lo + k <= usize::MAX,
        k < 32,
    ensures
        code == context_code(data@.subrange(lo as int, lo as int + k)),
        code < context_count(k as nat),
{
    let mut code: usize = 0;
    let mut j: usize = 0;
    proof {
        assert(data@.subrange(lo as int, lo as int) =~= Seq::<bool>::empty());
    }
    while j < k
        invariant
            j <= k,
            code == context_code(data@.subrange(lo as int, lo as int + j)),
            code < context_count(j as nat),
        decreases k - j,
    {
        proof {
            lemma_context_code_push(data@.subrange(lo as int, lo as int + j), data@[lo + j]);
            assert(data@.subrange(lo as int, lo as int + j).push(data@[lo as int + j])
                =~= data@.subrange(lo as int, lo as int + j + 1));
            lemma_context_count_increases((j + 1) as nat, 31);
            lemma_context_count_31();
        }
        let bit = data.get(lo + j);
        code = 2 * code + (if bit {
            1
        } else {
            0
        });
        j = j + 1;
    }
    code
}

/// Among the first `m` symbols of `data`, how many are `b`.
pub open spec fn symbol_count_upto(data: Seq<bool>, b: bool, m: int) -> nat
    decreases m,
{
    if m <= 0 {
        0nat
    } else {
        symbol_count_upto(data, b, m - 1) + (if data[m - 1] == b {
            1nat
        } else {
            0nat
        })
    }
}

/// How many of the symbols of `data` are `b`: the plain marginal count,
/// independent of position.
pub open spec fn symbol_count(data: Seq<bool>, b: bool) -> nat {
    symbol_count_upto(data, b, data.len() as int)
}

/// An order-0 window is one symbol under the single empty context, so its
/// continuation count is the marginal count of the symbol.
proof fn lemma_order_zero_upto(data: Seq<bool>, b: bool, m: int)
    requires
        m <= data.len(),
    ensures
        continuation_count_upto(data, 0, 0, b, m) == symbol_count_upto(data, b, m),
    decreases m,
{
    if m > 0 {
        lemma_order_zero_upto(data, b, m - 1);
        assert(data.subrange(m - 1, m - 1) =~= Seq::<bool>::empty());
    }
}

/// An order-0 fit reduces to the plain marginal frequency: the weight a
/// degree-0 estimate stores for a symbol is that symbol's number of
/// occurrences anywhere in the data, independent of position, so
/// P(symbol) is its marginal frequency over the whole data.
pub proof fn lemma_order_zero_marginal(data: Seq<bool>, b: bool)
    ensures
        continuation_count(data, 0, 0, b) == symbol_count(data, b),
{
    lemma_order_zero_upto(data, b, data.len() as int);
}

/// For an order-0 fit, the single empty context's two weights partition the
/// data: they sum to its length. On non-empty data the denominator
/// `zero + one` is therefore positive, and the two estimated probabilities
/// `zero / length` and `one / length` sum to one exactly.
pub proof fn lemma_order_zero_weights_sum(data: Seq<bool>)
    ensures
        continuation_count(data, 0, 0, ZERO) + continuation_count(data, 0, 0, ONE) == data.len(),
{
    lemma_order_zero_marginal(data, ZERO);
    lemma_order_zero_marginal(data, ONE);
    lemma_symbol_counts_partition(data, data.len() as int);
}

/// The total weight the first `m` windows of length `k + 1` contribute to
/// the table entries with codes below `c_end`: the sum, over those
/// contexts, of both continuation counts.
pub open spec fn chances_sum(data: Seq<bool>, k: nat, c_end: int, m: int) -> nat
    decreases c_end,
{
    if c_end <= 0 {
        0nat
    } else {
        chances_sum(data, k, c_end - 1, m) + continuation_count_upto(
            data,
            k,
            (c_end - 1) as nat,
            ZERO,
            m,
        ) + continuation_count_upto(data, k, (c_end - 1) as nat, ONE, m)
    }
}

proof fn lemma_chances_sum_zero(data: Seq<bool>, k: nat, c_end: int)
    ensures
        chances_sum(data, k, c_end, 0) == 0,
    decreases c_end,
{
    if c_end > 0 {
        lemma_chances_sum_zero(data, k, c_end - 1);
    }
}

/// One more window adds exactly one to the summed weights below `c_end`
/// when its context code lies below `c_end`, and nothing otherwise: a
/// window has one context and one continuation.
proof fn lemma_chances_sum_step(data: Seq<bool>, k: nat, c_end: int, m: int)
    requires
        m >= 1,
        m + k <= data.len(),
    ensures
        chances_sum(data, k, c_end, m) == chances_sum(data, k, c_end, m - 1) + (
        if context_code(data.subrange(m - 1, m - 1 + k)) < c_end {
            1nat
        } else {
            0nat
        }),
    decreases c_end,
{
    if c_end > 0 {
        lemma_chances_sum_step(data, k, c_end - 1, m);
        let c = (c_end - 1) as nat;
        assert(continuation_count_upto(data, k, c, ZERO, m) == continuation_count_upto(
            data,
            k,
            c,
            ZERO,
            m - 1,
        ) + (if window_matches(data, k, c, ZERO, m - 1) {
            1nat
        } else {
            0nat
        }));
        assert(continuation_count_upto(data, k, c, ONE, m) == continuation_count_upto(
            data,
            k,
            c,
            ONE,
            m - 1,
        ) + (if window_matches(data, k, c, ONE, m - 1) {
            1nat
        } else {
            0nat
        }));
    }
}

proof fn lemma_chances_sum_windows(data: Seq<bool>, k: nat, m: int)
    requires
        0 <= m,
        m + k <= data.len(),
    ensures
        chances_sum(data, k, context_count(k) as int, m) == m,
    decreases m,
{
    if m == 0 {
        lemma_chances_sum_zero(data, k, context_count(k) as int);
    } else {
        lemma_chances_sum_windows(data, k, m - 1);
        lemma_chances_sum_step(data, k, context_count(k) as int, m);
        assert(data.subrange(m - 1, m - 1 + k).len() == k);
        lemma_context_code_bound(data.subrange(m - 1, m - 1 + k));
    }
}

/// Every window is counted exactly once across the parameter table: the
/// stored weights of an order-k fit total the number of windows of length
/// k + 1. So the fitted fractions are conditional frequencies: within a
/// defined context the pair `zero / chances` and `one / chances` sums to
/// one exactly, and across contexts the chances partition the windows.
pub proof fn lemma_chances_partition_windows(data: Seq<bool>, k: nat)
    requires
        k <= data.len(),
    ensures
        chances_sum(data, k, context_count(k) as int, data.len() - k) == data.len() - k,
{
    lemma_chances_sum_windows(data, k, data.len() - k);
}

/// Every symbol is `ZERO` or `ONE`, so the two marginal counts partition the
/// data.
proof fn lemma_symbol_counts_partition(data: Seq<bool>, m: int)
    requires
        m <= data.len(),
    ensures
        symbol_count_upto(data, ZERO, m) + symbol_count_upto(data, ONE, m) == if m <= 0 {
            0int
        } else {
            m
        },
    decreases m,
{
    if m > 0 {
        lemma_symbol_counts_partition(data, m - 1);
    }
}

} // verus!
