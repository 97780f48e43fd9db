//! Parameters for DART boosters, which drop trees during training.
use super::{pairs_view, Decimal};
use crate::error::{ErrorKind, XGBError};
use vstd::prelude::*;

verus! {

/// Type of sampling algorithm.
#[derive(Clone, Copy, Debug, PartialEq, Eq, Structural, Default)]
pub enum SampleType {
    /// Dropped trees are selected uniformly.
    #[default]
    Uniform,
    /// Dropped trees are selected in proportion to weight.
    Weighted,
}

pub open spec fn sample_type_text(t: SampleType) -> Seq<char> {
    match t {
        SampleType::Uniform => "uniform"@,
        SampleType::Weighted => "weighted"@,
    }
}

impl SampleType {
    /// The token by which the engine knows this algorithm.
    pub fn to_string(&self) -> (r: String)
        ensures
            r@ == sample_type_text(*self),
    {
        match self {
            SampleType::Uniform => String::from_str("uniform"),
            SampleType::Weighted => String::from_str("weighted"),
        }
    }
}

/// Type of normalization algorithm.
#[derive(Clone, Copy, Debug, PartialEq, Eq, Structural, Default)]
pub enum NormalizeType {
    /// New trees have the same weight of each of dropped trees.
    /// * weight of new trees are 1 / (k + learning_rate)
    /// * dropped trees are scaled by a factor of k / (k + learning_rate)
    #[default]
    Tree,
    /// New trees have the same weight of sum of dropped trees (forest).
    /// * weight of new trees are 1 / (1 + learning_rate)
    /// * dropped trees are scaled by a factor of 1 / (1 + learning_rate)
    Forest,
}

pub open spec fn normalize_type_text(t: NormalizeType) -> Seq<char> {
    match t {
        NormalizeType::Tree => "tree"@,
        NormalizeType::Forest => "forest"@,
    }
}

impl NormalizeType {
    /// The token by which the engine knows this algorithm.
    pub fn to_string(&self) -> (r: String)
        ensures
            r@ == normalize_type_text(*self),
    {
        match self {
            NormalizeType::Tree => String::from_str("tree"),
            NormalizeType::Forest => String::from_str("forest"),
        }
    }
}

/// Additional parameters for Dart Booster.
#[derive(Clone, Copy, Debug)]
pub struct DartBoosterParameters {
    /// Type of sampling algorithm.
    sample_type: SampleType,
    /// Type of normalization algorithm.
    normalize_type: NormalizeType,
    /// Dropout rate (a fraction of previous trees to drop during the dropout), in [0, 1].
    rate_drop: Decimal,
    /// When this flag is enabled, at least one tree is always dropped during the dropout.
    one_drop: bool,
    /// Probability of skipping the dropout procedure during a boosting iteration, in
    /// [0, 1]. A non-zero skip_drop has higher priority than rate_drop or one_drop.
    skip_drop: Decimal,
}

/// Message of a value outside `[0.0, 1.0]`.
pub open spec fn range_error(field: Seq<char>) -> Seq<char> {
    field + " must be within [0.0, 1.0]"@
}

impl DartBoosterParameters {
    #[verifier::type_invariant]
    spec fn inv(self) -> bool {
        self.rate_drop.spec_at_most_one() && self.skip_drop.spec_at_most_one()
    }

    pub closed spec fn spec_sample_type(self) -> SampleType {
        self.sample_type
    }

    pub closed spec fn spec_normalize_type(self) -> NormalizeType {
        self.normalize_type
    }

    pub closed spec fn spec_rate_drop(self) -> Decimal {
        self.rate_drop
    }

    pub closed spec fn spec_one_drop(self) -> bool {
        self.one_drop
    }

    pub closed spec fn spec_skip_drop(self) -> Decimal {
        self.skip_drop
    }

    /// The pairs that configure the engine for these parameters, in this order.
    pub open spec fn spec_pairs(self) -> Seq<(Seq<char>, Seq<char>)> {
        seq![
            ("booster"@, "dart"@),
            ("sample_type"@, sample_type_text(self.spec_sample_type())),
            ("normalize_type"@, normalize_type_text(self.spec_normalize_type())),
            ("rate_drop"@, self.spec_rate_drop().spec_text()),
            ("one_drop"@, if self.spec_one_drop() { "1"@ } else { "0"@ }),
            ("skip_drop"@, self.spec_skip_drop().spec_text()),
        ]
    }

    pub fn as_string_pairs(&self) -> (r: Vec<(String, String)>)
        ensures
            pairs_view(r@) == self.spec_pairs(),
    {
        let one_drop = if self.one_drop {
            String::from_str("1")
        } else {
            String::from_str("0")
        };
        let r = vec![
            (String::from_str("booster"), String::from_str("dart")),
            (String::from_str("sample_type"), self.sample_type.to_string()),
            (String::from_str("normalize_type"), self.normalize_type.to_string()),
            (String::from_str("rate_drop"), self.rate_drop.to_text()),
            (String::from_str("one_drop"), one_drop),
            (String::from_str("skip_drop"), self.skip_drop.to_text()),
        ];
        assert(pairs_view(r@) =~= self.spec_pairs());
        r
    }
}

impl Default for DartBoosterParameters {
    fn default() -> (r: DartBoosterParameters)
        ensures
            r.spec_sample_type() == SampleType::Uniform,
            r.spec_normalize_type() == NormalizeType::Tree,
            r.spec_rate_drop().spec_digits() == 0,
            r.spec_rate_drop().spec_scale() == 0,
            !r.spec_one_drop(),
            r.spec_skip_drop().spec_digits() == 0,
            r.spec_skip_drop().spec_scale() == 0,
    {
        let zero = Decimal::whole(0);
        DartBoosterParameters {
            sample_type: SampleType::Uniform,
            normalize_type: NormalizeType::Tree,
            rate_drop: zero,
            one_drop: false,
            skip_drop: zero,
        }
    }
}

/// Collects DART parameters; `build` checks them as a whole.
#[derive(Clone, Copy, Debug)]
pub struct DartBoosterParametersBuilder {
    pub sample_type: Option<SampleType>,
    pub normalize_type: Option<NormalizeType>,
    pub rate_drop: Option<Decimal>,
    pub one_drop: Option<bool>,
    pub skip_drop: Option<Decimal>,
}

/// A value that was set lies in `[0, 1]`.
pub open spec fn unset_or_at_most_one(v: Option<Decimal>) -> bool {
    match v {
        Some(d) => d.spec_at_most_one(),
        None => true,
    }
}

impl Default for DartBoosterParametersBuilder {
    fn default() -> (r: DartBoosterParametersBuilder)
        ensures
            r.sample_type is None,
            r.normalize_type is None,
            r.rate_drop is None,
            r.one_drop is None,
            r.skip_drop is None,
    {
        DartBoosterParametersBuilder {
            sample_type: None,
            normalize_type: None,
            rate_drop: None,
            one_drop: None,
            skip_drop: None,
        }
    }
}

fn check_unit(v: Option<Decimal>) -> (r: bool)
    ensures
        r == unset_or_at_most_one(v),
{
    match v {
        Some(d) => d.at_most_one(),
        None => true,
    }
}

impl DartBoosterParametersBuilder {
    pub fn sample_type(self, v: SampleType) -> (r: Self)
        ensures
            r == (Self { sample_type: Some(v), ..self }),
    {
        Self { sample_type: Some(v), ..self }
    }

    pub fn normalize_type(self, v: NormalizeType) -> (r: Self)
        ensures
            r == (Self { normalize_type: Some(v), ..self }),
    {
        Self { normalize_type: Some(v), ..self }
    }

    pub fn rate_drop(self, v: Decimal) -> (r: Self)
        ensures
            r == (Self { rate_drop: Some(v), ..self }),
    {
        Self { rate_drop: Some(v), ..self }
    }

    pub fn one_drop(self, v: bool) -> (r: Self)
        ensures
            r == (Self { one_drop: Some(v), ..self }),
    {
        Self { one_drop: Some(v), ..self }
    }

    pub fn skip_drop(self, v: Decimal) -> (r: Self)
        ensures
            r == (Self { skip_drop: Some(v), ..self }),
    {
        Self { skip_drop: Some(v), ..self }
    }

    /// Checks that the rates that were set lie in `[0.0, 1.0]`: first `rate_drop`, then
    /// `skip_drop`; the message names the first one that does not.
    pub fn validate(&self) -> (r: Result<(), String>)
        ensures
            !unset_or_at_most_one(self.rate_drop) ==> r is Err && r->Err_0@ == range_error(
                "rate_drop"@,
            ),
            unset_or_at_most_one(self.rate_drop) && !unset_or_at_most_one(self.skip_drop) ==> r is Err
                && r->Err_0@ == range_error("skip_drop"@),
            unset_or_at_most_one(self.rate_drop) && unset_or_at_most_one(self.skip_drop) ==> r is Ok,
    {
        if !check_unit(self.rate_drop) {
            let mut msg = String::from_str("rate_drop");
            msg.append(" must be within [0.0, 1.0]");
            return Err(msg);
        }
        if !check_unit(self.skip_drop) {
            let mut msg = String::from_str("skip_drop");
            msg.append(" must be within [0.0, 1.0]");
            return Err(msg);
        }
        Ok(())
    }

    /// The parameters, with defaults for what was not set, once `validate` accepts them;
    /// otherwise a validation error with its message.
    pub fn build(&self) -> (r: Result<DartBoosterParameters, XGBError>)
        ensures
            unset_or_at_most_one(self.rate_drop) && unset_or_at_most_one(self.skip_drop) <==> r is Ok,
            !unset_or_at_most_one(self.rate_drop) ==> r is Err && r->Err_0.kind
                == ErrorKind::Validation && r->Err_0.desc@ == range_error("rate_drop"@),
            unset_or_at_most_one(self.rate_drop) && !unset_or_at_most_one(self.skip_drop) ==> r is Err
                && r->Err_0.kind == ErrorKind::Validation && r->Err_0.desc@ == range_error(
                "skip_drop"@,
            ),
            r is Ok ==> {
                let p = r->Ok_0;
                &&& p.spec_sample_type() == match self.sample_type {
                    Some(v) => v,
                    None => SampleType::Uniform,
                }
                &&& p.spec_normalize_type() == match self.normalize_type {
                    Some(v) => v,
                    None => NormalizeType::Tree,
                }
                &&& p.spec_one_drop() == match self.one_drop {
                    Some(v) => v,
                    None => false,
                }
                &&& match self.rate_drop {
                    Some(v) => p.spec_rate_drop() == v,
                    None => p.spec_rate_drop().spec_digits() == 0 && p.spec_rate_drop().spec_scale()
                        == 0,
                }
                &&& match self.skip_drop {
                    Some(v) => p.spec_skip_drop() == v,
                    None => p.spec_skip_drop().spec_digits() == 0 && p.spec_skip_drop().spec_scale()
                        == 0,
                }
            },
    {
        match self.validate() {
            Err(msg) => Err(XGBError::new(ErrorKind::Validation, msg)),
            Ok(()) => {
                let zero = Decimal::whole(0);
                let rate_drop = match self.rate_drop {
                    Some(v) => v,
                    None => zero,
                };
                let skip_drop = match self.skip_drop {
                    Some(v) => v,
                    None => zero,
                };
                proof {
                    lemma_zero_at_most_one(zero);
                }
                Ok(
                    DartBoosterParameters {
                        sample_type: match self.sample_type {
                            Some(v) => v,
                            None => SampleType::Uniform,
                        },
                        normalize_type: match self.normalize_type {
                            Some(v) => v,
                            None => NormalizeType::Tree,
                        },
                        rate_drop,
                        one_drop: match self.one_drop {
                            Some(v) => v,
                            None => false,
                        },
                        skip_drop,
                    },
                )
            },
        }
    }
}

proof fn lemma_zero_at_most_one(d: Decimal)
    requires
        d.spec_digits() == 0,
    ensures
        d.spec_at_most_one(),
{
}

} // verus!
