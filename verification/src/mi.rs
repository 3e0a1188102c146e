use vstd::prelude::*;

use crate::collector::{count_in, CollectorModel, TupleCollector};

verus! {

/// An exact probability estimate: a fraction of two machine integers.
///
/// The denominator may be zero: a raw probability over an empty table is
/// deliberately left as the indeterminate fraction 0/0 rather than guarded,
/// and it is the caller's business how to surface it.
#[derive(Clone, Copy, PartialEq, Eq, Debug)]
pub struct Ratio {
    pub num: u128,
    pub den: u128,
}

/// The mathematical value of a [`Ratio`]: a fraction of unbounded integers.
#[verifier::ext_equal]
pub ghost struct RatioModel {
    pub num: int,
    pub den: int,
}

impl View for Ratio {
    type V = RatioModel;

    open spec fn view(&self) -> RatioModel {
        RatioModel { num: self.num as int, den: self.den as int }
    }
}

/// Two fractions denote the same probability exactly when they
/// cross-multiply equally.
pub open spec fn ratio_eqv(a: RatioModel, b: RatioModel) -> bool {
    a.num * b.den == b.num * a.den
}

/// The largest observation total the exact fraction arithmetic supports
/// without overflowing its 128-bit numerators and denominators.
pub open spec fn sum_limit() -> nat {
    0x8000_0000_0000_0000
}

/// A strategy for estimating probabilities from raw counts.
///
/// `spec_joint_prob` and `spec_marginal_prob` are the strategy's defining
/// formulas; the executable methods are proved to compute exactly those
/// fractions.
pub trait Smoothing: Sized {
    /// The probability assigned to a joint event counted `joint_freq`
    /// times among `joint_sum` observations of `joint_distinct` distinct
    /// tuples.
    spec fn spec_joint_prob(&self, joint_freq: nat, joint_sum: nat, joint_distinct: nat)
        -> RatioModel;

    /// The probability assigned to one position's symbol counted
    /// `event_freq` times among `event_sum` observations of
    /// `event_distinct` distinct symbols at that position.
    spec fn spec_marginal_prob(&self, event_freq: nat, event_sum: nat, event_distinct: nat)
        -> RatioModel;

    /// The joint probability of a tuple, as an exact fraction.
    fn joint_prob(&self, joint_freq: usize, joint_sum: usize, joint_distinct: usize) -> (r: Ratio)
        requires
            joint_freq <= joint_sum,
            joint_distinct <= joint_sum,
            (joint_sum as nat) < sum_limit(),
        ensures
            r@ == self.spec_joint_prob(joint_freq as nat, joint_sum as nat, joint_distinct as nat),
    ;

    /// The marginal probability of one position's symbol, as an exact
    /// fraction.
    fn marginal_prob(&self, event_freq: usize, event_sum: usize, event_distinct: usize) -> (r:
        Ratio)
        requires
            event_freq <= event_sum,
            event_distinct <= event_sum,
            (event_sum as nat) < sum_limit(),
        ensures
            r@ == self.spec_marginal_prob(event_freq as nat, event_sum as nat, event_distinct as nat),
    ;

    /// The probability of a whole tuple under independence: one marginal
    /// fraction per position, whose product is the independent estimate.
    fn independent_prob(
        &self,
        event_freqs: &Vec<usize>,
        event_sums: &Vec<usize>,
        event_distincts: &Vec<usize>,
    ) -> (r: Vec<Ratio>)
        requires
            event_freqs@.len() == event_sums@.len(),
            event_freqs@.len() == event_distincts@.len(),
            forall|i: int|
                0 <= i < event_freqs@.len() ==> (#[trigger] event_freqs@[i]) <= event_sums@[i],
            forall|i: int|
                0 <= i < event_freqs@.len() ==> (#[trigger] event_distincts@[i])
                    <= event_sums@[i],
            forall|i: int|
                0 <= i < event_freqs@.len() ==> ((#[trigger] event_sums@[i]) as nat) < sum_limit(),
        ensures
            r@.len() == event_freqs@.len(),
            forall|i: int|
                0 <= i < r@.len() ==> (#[trigger] r@[i])@ == self.spec_marginal_prob(
                    event_freqs@[i] as nat,
                    event_sums@[i] as nat,
                    event_distincts@[i] as nat,
                ),
    ;
}

/// Probabilities as raw relative frequencies, with no correction.
pub struct RawProb;

impl RawProb {
    pub fn new() -> (r: RawProb)
        ensures
            r == (RawProb {}),
    {
        RawProb
    }
}

impl Smoothing for RawProb {
    /// `joint_freq / joint_sum`.
    open spec fn spec_joint_prob(&self, joint_freq: nat, joint_sum: nat, joint_distinct: nat)
        -> RatioModel {
        RatioModel { num: joint_freq as int, den: joint_sum as int }
    }

    /// `event_freq / event_sum`.
    open spec fn spec_marginal_prob(&self, event_freq: nat, event_sum: nat, event_distinct: nat)
        -> RatioModel {
        RatioModel { num: event_freq as int, den: event_sum as int }
    }

    fn joint_prob(&self, joint_freq: usize, joint_sum: usize, joint_distinct: usize) -> (r: Ratio) {
        Ratio { num: joint_freq as u128, den: joint_sum as u128 }
    }

    fn marginal_prob(&self, event_freq: usize, event_sum: usize, event_distinct: usize) -> (r:
        Ratio) {
        Ratio { num: event_freq as u128, den: event_sum as u128 }
    }

    fn independent_prob(
        &self,
        event_freqs: &Vec<usize>,
        event_sums: &Vec<usize>,
        event_distincts: &Vec<usize>,
    ) -> (r: Vec<Ratio>) {
        let n: usize = event_freqs.len();
        let mut r: Vec<Ratio> = Vec::new();
        let mut i: usize = 0;
        while i < n
            invariant
                i <= n,
                n == event_freqs@.len(),
                n == event_sums@.len(),
                n == event_distincts@.len(),
                r@.len() == i,
                forall|p: int| 0 <= p < n ==> (#[trigger] event_freqs@[p]) <= event_sums@[p],
                forall|p: int| 0 <= p < n ==> (#[trigger] event_distincts@[p]) <= event_sums@[p],
                forall|p: int| 0 <= p < n ==> ((#[trigger] event_sums@[p]) as nat) < sum_limit(),
                forall|p: int|
                    0 <= p < i ==> (#[trigger] r@[p])@ == self.spec_marginal_prob(
                        event_freqs@[p] as nat,
                        event_sums@[p] as nat,
                        event_distincts@[p] as nat,
                    ),
            decreases n - i,
        {
            let m = self.marginal_prob(event_freqs[i], event_sums[i], event_distincts[i]);
            r.push(m);
            i += 1;
        }
        r
    }
}

/// Additive (Laplace) smoothing with a non-negative rational pseudo-count
/// `alpha_num / alpha_den` added to every count.
#[derive(Clone, Copy, PartialEq, Eq, Debug)]
pub struct LaplaceSmoothing {
    pub alpha_num: usize,
    pub alpha_den: usize,
}

impl LaplaceSmoothing {
    /// A strategy adding the pseudo-count `alpha_num / alpha_den`; the
    /// denominator must be positive for the pseudo-count to denote a
    /// rational.
    pub fn new(alpha_num: usize, alpha_den: usize) -> (r: LaplaceSmoothing)
        requires
            1 <= alpha_den,
        ensures
            r.alpha_num == alpha_num,
            r.alpha_den == alpha_den,
    {
        LaplaceSmoothing { alpha_num, alpha_den }
    }
}

impl Smoothing for LaplaceSmoothing {
    /// `(joint_freq + a) / (joint_sum + joint_distinct * a)` for the
    /// pseudo-count `a`, written over a common denominator.
    open spec fn spec_joint_prob(&self, joint_freq: nat, joint_sum: nat, joint_distinct: nat)
        -> RatioModel {
        RatioModel {
            num: joint_freq * self.alpha_den + self.alpha_num,
            den: joint_sum * self.alpha_den + joint_distinct * self.alpha_num,
        }
    }

    /// `(event_freq + a) / (event_sum + event_distinct * a)` for the
    /// pseudo-count `a`, written over a common denominator.
    open spec fn spec_marginal_prob(&self, event_freq: nat, event_sum: nat, event_distinct: nat)
        -> RatioModel {
        RatioModel {
            num: event_freq * self.alpha_den + self.alpha_num,
            den: event_sum * self.alpha_den + event_distinct * self.alpha_num,
        }
    }

    fn joint_prob(&self, joint_freq: usize, joint_sum: usize, joint_distinct: usize) -> (r: Ratio) {
        proof {
            lemma_smoothed_fraction_fits(
                joint_freq as nat,
                joint_sum as nat,
                joint_distinct as nat,
                self.alpha_num as nat,
                self.alpha_den as nat,
            );
        }
        Ratio {
            num: (joint_freq as u128) * (self.alpha_den as u128) + (self.alpha_num as u128),
            den: (joint_sum as u128) * (self.alpha_den as u128) + (joint_distinct as u128) * (
            self.alpha_num as u128),
        }
    }

    fn marginal_prob(&self, event_freq: usize, event_sum: usize, event_distinct: usize) -> (r:
        Ratio) {
        proof {
            lemma_smoothed_fraction_fits(
                event_freq as nat,
                event_sum as nat,
                event_distinct as nat,
                self.alpha_num as nat,
                self.alpha_den as nat,
            );
        }
        Ratio {
            num: (event_freq as u128) * (self.alpha_den as u128) + (self.alpha_num as u128),
            den: (event_sum as u128) * (self.alpha_den as u128) + (event_distinct as u128) * (
            self.alpha_num as u128),
        }
    }

    fn independent_prob(
        &self,
        event_freqs: &Vec<usize>,
        event_sums: &Vec<usize>,
        event_distincts: &Vec<usize>,
    ) -> (r: Vec<Ratio>) {
        let n: usize = event_freqs.len();
        let mut r: Vec<Ratio> = Vec::new();
        let mut i: usize = 0;
        while i < n
            invariant
                i <= n,
                n == event_freqs@.len(),
                n == event_sums@.len(),
                n == event_distincts@.len(),
                r@.len() == i,
                forall|p: int| 0 <= p < n ==> (#[trigger] event_freqs@[p]) <= event_sums@[p],
                forall|p: int| 0 <= p < n ==> (#[trigger] event_distincts@[p]) <= event_sums@[p],
                forall|p: int| 0 <= p < n ==> ((#[trigger] event_sums@[p]) as nat) < sum_limit(),
                forall|p: int|
                    0 <= p < i ==> (#[trigger] r@[p])@ == self.spec_marginal_prob(
                        event_freqs@[p] as nat,
                        event_sums@[p] as nat,
                        event_distincts@[p] as nat,
                    ),
            decreases n - i,
        {
            let m = self.marginal_prob(event_freqs[i], event_sums[i], event_distincts[i]);
            r.push(m);
            i += 1;
        }
        r
    }
}

/// The numerator and denominator of a smoothed fraction stay below
/// `2^128` whenever the counts stay below the supported observation
/// total and the pseudo-count parts are machine integers.
proof fn lemma_smoothed_fraction_fits(freq: nat, sum: nat, distinct: nat, an: nat, ad: nat)
    requires
        freq <= sum,
        distinct <= sum,
        sum < sum_limit(),
        an <= usize::MAX as nat,
        ad <= usize::MAX as nat,
    ensures
        freq * ad + an < u128::MAX as nat,
        sum * ad + distinct * an < u128::MAX as nat,
{
    assert(freq * ad <= (sum_limit() - 1) * 0xffff_ffff_ffff_ffff) by (nonlinear_arith)
        requires
            freq <= sum_limit() - 1,
            ad <= 0xffff_ffff_ffff_ffff,
    ;
    assert(sum * ad <= (sum_limit() - 1) * 0xffff_ffff_ffff_ffff) by (nonlinear_arith)
        requires
            sum <= sum_limit() - 1,
            ad <= 0xffff_ffff_ffff_ffff,
    ;
    assert(distinct * an <= (sum_limit() - 1) * 0xffff_ffff_ffff_ffff) by (nonlinear_arith)
        requires
            distinct <= sum_limit() - 1,
            an <= 0xffff_ffff_ffff_ffff,
    ;
    assert(usize::MAX as nat <= 0xffff_ffff_ffff_ffff);
}

/// With pseudo-count zero, additive smoothing assigns exactly the same
/// joint and marginal probabilities as raw relative frequency: the
/// fractions cross-multiply equally, whatever the counts.
pub proof fn lemma_laplace_zero_matches_raw(
    alpha_den: usize,
    joint_freq: nat,
    joint_sum: nat,
    joint_distinct: nat,
    event_freq: nat,
    event_sum: nat,
    event_distinct: nat,
)
    requires
        1 <= alpha_den,
    ensures
        ratio_eqv(
            (LaplaceSmoothing { alpha_num: 0, alpha_den }).spec_joint_prob(
                joint_freq,
                joint_sum,
                joint_distinct,
            ),
            (RawProb {}).spec_joint_prob(joint_freq, joint_sum, joint_distinct),
        ),
        ratio_eqv(
            (LaplaceSmoothing { alpha_num: 0, alpha_den }).spec_marginal_prob(
                event_freq,
                event_sum,
                event_distinct,
            ),
            (RawProb {}).spec_marginal_prob(event_freq, event_sum, event_distinct),
        ),
{
    assert((joint_freq * alpha_den + 0) * joint_sum == joint_freq * (joint_sum * alpha_den
        + joint_distinct * 0)) by (nonlinear_arith);
    assert((event_freq * alpha_den + 0) * event_sum == event_freq * (event_sum * alpha_den
        + event_distinct * 0)) by (nonlinear_arith);
}

/// The exact building blocks of an association score for one tuple.
///
/// The logarithms that turn these into a floating-point score are outside
/// the verified core; every count-derived quantity here is an exact
/// fraction.
#[derive(Clone, PartialEq, Eq, Debug)]
pub struct ScoreParts {
    /// The smoothed joint probability of the tuple.
    pub joint: Ratio,
    /// The smoothed marginal probability of each position's symbol; the
    /// product of these is the probability of the tuple under
    /// independence.
    pub marginals: Vec<Ratio>,
    /// Whether the log-ratio is to be rescaled into [-1, 1].
    pub normalize: bool,
    /// Whether a negative final score is to be truncated to zero.
    pub positive: bool,
}

/// The mathematical value of [`ScoreParts`].
#[verifier::ext_equal]
pub ghost struct ScoreModel {
    pub joint: RatioModel,
    pub marginals: Seq<RatioModel>,
    pub normalize: bool,
    pub positive: bool,
}

impl View for ScoreParts {
    type V = ScoreModel;

    open spec fn view(&self) -> ScoreModel {
        ScoreModel {
            joint: self.joint@,
            marginals: self.marginals@.map(|_i: int, m: Ratio| m@),
            normalize: self.normalize,
            positive: self.positive,
        }
    }
}

/// A mutual-information measure: from a tuple and a collector's counts it
/// derives the exact parts of the tuple's association score.
///
/// `spec_score` is the measure's defining formula; the executable method
/// is proved to compute exactly it.
pub trait MutualInformation: Sized {
    /// The score parts this measure derives from `tuple` under the
    /// collector state `m`.
    spec fn spec_score(&self, tuple: Seq<usize>, m: CollectorModel) -> ScoreModel;

    /// Compute the score parts of `tuple` from the collector's counts.
    fn mutual_information(&self, tuple: &Vec<usize>, stats: &TupleCollector) -> (r: ScoreParts)
        requires
            stats.wf(),
            tuple@.len() == stats@.arity,
            stats@.joint_sum < sum_limit(),
        ensures
            r@ == self.spec_score(tuple@, stats@),
    ;
}

/// Specific correlation: the generalization of pointwise mutual
/// information to tuples of two or more symbols. The score is the log of
/// the ratio between the tuple's smoothed joint probability and the
/// product of its smoothed marginal probabilities, optionally normalized
/// into [-1, 1].
pub struct SpecificCorrelation<S> {
    pub normalize: bool,
    pub smoothing: S,
}

impl<S> SpecificCorrelation<S> {
    /// A specific-correlation measure over the given smoothing strategy;
    /// with `normalize` the eventual score is rescaled to lie between -1
    /// and 1.
    pub fn new(normalize: bool, smoothing: S) -> (r: SpecificCorrelation<S>)
        ensures
            r.normalize == normalize,
            r.smoothing == smoothing,
    {
        SpecificCorrelation { normalize, smoothing }
    }
}

impl<S: Smoothing> MutualInformation for SpecificCorrelation<S> {
    /// The tuple's smoothed joint probability, its smoothed marginal
    /// probability at every position, and this measure's normalization
    /// flag.
    open spec fn spec_score(&self, tuple: Seq<usize>, m: CollectorModel) -> ScoreModel {
        ScoreModel {
            joint: self.smoothing.spec_joint_prob(
                count_in(m.joint_freqs, tuple),
                m.joint_sum,
                m.joint_freqs.dom().len(),
            ),
            marginals: Seq::new(
                tuple.len(),
                |i: int| self.smoothing.spec_marginal_prob(
                    count_in(m.event_freqs[i], tuple[i]),
                    m.event_sums[i],
                    m.event_freqs[i].dom().len(),
                ),
            ),
            normalize: self.normalize,
            positive: false,
        }
    }

    fn mutual_information(&self, tuple: &Vec<usize>, stats: &TupleCollector) -> (r: ScoreParts) {
        proof {
            stats.lemma_bounds();
        }
        let jf = stats.joint_freq(tuple);
        let js = stats.joint_sum();
        let jd = stats.joint_distinct();
        let joint = self.smoothing.joint_prob(jf, js, jd);
        let n: usize = tuple.len();
        let mut efs: Vec<usize> = Vec::new();
        let mut ess: Vec<usize> = Vec::new();
        let mut evs: Vec<usize> = Vec::new();
        let mut i: usize = 0;
        while i < n
            invariant
                i <= n,
                stats.wf(),
                n == tuple@.len(),
                n == stats@.arity,
                stats@.joint_sum < sum_limit(),
                efs@.len() == i,
                ess@.len() == i,
                evs@.len() == i,
                forall|p: int|
                    0 <= p < i ==> (#[trigger] efs@[p]) as nat == count_in(
                        stats@.event_freqs[p],
                        tuple@[p],
                    ),
                forall|p: int| 0 <= p < i ==> (#[trigger] ess@[p]) as nat == stats@.event_sums[p],
                forall|p: int|
                    0 <= p < i ==> (#[trigger] evs@[p]) as nat == stats@.event_freqs[p].dom().len(),
                forall|p: int| 0 <= p < i ==> (#[trigger] efs@[p]) <= ess@[p],
                forall|p: int| 0 <= p < i ==> (#[trigger] evs@[p]) <= ess@[p],
                forall|p: int| 0 <= p < i ==> ((#[trigger] ess@[p]) as nat) < sum_limit(),
            decreases n - i,
        {
            proof {
                stats.lemma_bounds();
            }
            let s: usize = tuple[i];
            efs.push(stats.event_freq(i, s));
            ess.push(stats.event_sum(i));
            evs.push(stats.event_distinct(i));
            i += 1;
        }
        let marginals = self.smoothing.independent_prob(&efs, &ess, &evs);
        let r = ScoreParts { joint, marginals, normalize: self.normalize, positive: false };
        proof {
            let spec = self.spec_score(tuple@, stats@);
            assert forall|p: int| 0 <= p < n implies #[trigger] r@.marginals[p]
                == spec.marginals[p] by {
                assert(r@.marginals[p] == marginals@[p]@);
            }
            assert(r@.marginals =~= spec.marginals);
            assert(r@ =~= spec);
        }
        r
    }
}

/// Positive mutual information: a decorator around any measure that
/// truncates a negative final score to zero and changes nothing else.
pub struct PositiveMutualInformation<M> {
    pub mi: M,
}

impl<M> PositiveMutualInformation<M> {
    /// Wrap `mi` so that negative scores are reported as zero.
    pub fn new(mi: M) -> (r: PositiveMutualInformation<M>)
        ensures
            r.mi == mi,
    {
        PositiveMutualInformation { mi }
    }
}

impl<M: MutualInformation> MutualInformation for PositiveMutualInformation<M> {
    /// Exactly the wrapped measure's score parts, with truncation at zero
    /// switched on.
    open spec fn spec_score(&self, tuple: Seq<usize>, m: CollectorModel) -> ScoreModel {
        ScoreModel { positive: true, ..self.mi.spec_score(tuple, m) }
    }

    fn mutual_information(&self, tuple: &Vec<usize>, stats: &TupleCollector) -> (r: ScoreParts) {
        let inner = self.mi.mutual_information(tuple, stats);
        let r = ScoreParts {
            joint: inner.joint,
            marginals: inner.marginals,
            normalize: inner.normalize,
            positive: true,
        };
        proof {
            assert(r@ =~= self.spec_score(tuple@, stats@));
        }
        r
    }
}

} // verus!
