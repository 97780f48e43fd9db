//! Parameters for linear boosters.
use super::{pairs_view, Decimal};
use vstd::prelude::*;

verus! {

/// Linear model algorithm.
#[derive(Clone, Copy, Debug, PartialEq, Eq, Structural, Default)]
pub enum LinearUpdate {
    /// Parallel coordinate descent algorithm based on shotgun algorithm. Uses 'hogwild'
    /// parallelism and therefore produces a nondeterministic solution on each run.
    #[default]
    Shotgun,
    /// Ordinary coordinate descent algorithm. Also multithreaded but still produces a
    /// deterministic solution.
    CoordDescent,
}

pub open spec fn linear_update_text(u: LinearUpdate) -> Seq<char> {
    match u {
        LinearUpdate::Shotgun => "shotgun"@,
        LinearUpdate::CoordDescent => "coord_descent"@,
    }
}

impl LinearUpdate {
    /// The token by which the engine knows this algorithm.
    pub fn to_string(&self) -> (r: String)
        ensures
            r@ == linear_update_text(*self),
    {
        match self {
            LinearUpdate::Shotgun => String::from_str("shotgun"),
            LinearUpdate::CoordDescent => String::from_str("coord_descent"),
        }
    }
}

/// BoosterParameters for Linear Booster.
#[derive(Clone, Copy, Debug)]
pub struct LinearBoosterParameters {
    /// L2 regularization term on weights, normalised to number of training examples.
    pub lambda: Decimal,
    /// L1 regularization term on weights, normalised to number of training examples.
    pub alpha: Decimal,
    /// Linear model algorithm.
    pub updater: LinearUpdate,
}

impl LinearBoosterParameters {
    /// The pairs that configure the engine for these parameters, in this order.
    pub open spec fn spec_pairs(self) -> Seq<(Seq<char>, Seq<char>)> {
        seq![
            ("booster"@, "gblinear"@),
            ("lambda"@, self.lambda.spec_text()),
            ("alpha"@, self.alpha.spec_text()),
            ("updater"@, linear_update_text(self.updater)),
        ]
    }

    pub fn as_string_pairs(&self) -> (r: Vec<(String, String)>)
        ensures
            pairs_view(r@) == self.spec_pairs(),
    {
        let r = vec![
            (String::from_str("booster"), String::from_str("gblinear")),
            (String::from_str("lambda"), self.lambda.to_text()),
            (String::from_str("alpha"), self.alpha.to_text()),
            (String::from_str("updater"), self.updater.to_string()),
        ];
        assert(pairs_view(r@) =~= self.spec_pairs());
        r
    }
}

impl Default for LinearBoosterParameters {
    fn default() -> (r: LinearBoosterParameters)
        ensures
            r.lambda.spec_digits() == 0,
            r.lambda.spec_scale() == 0,
            r.alpha.spec_digits() == 0,
            r.alpha.spec_scale() == 0,
            r.updater == LinearUpdate::Shotgun,
    {
        LinearBoosterParameters {
            lambda: Decimal::whole(0),
            alpha: Decimal::whole(0),
            updater: LinearUpdate::Shotgun,
        }
    }
}

} // verus!
