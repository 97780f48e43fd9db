//! Prediction requests: which output to compute, the option bits of the classic predict
//! call, the configuration text of the generalised one, and the shapes of the outputs.
use crate::error::{ErrorKind, XGBError};
use crate::text::{int_text, nat_text, push_int, push_nat};
use vstd::prelude::*;

verus! {

/// Prediction variant of the generalised predict call.
#[derive(Clone, Copy, Debug, PartialEq, Eq, Structural, Default)]
pub enum PredictType {
    #[default]
    Normal,
    OutputMargin,
    PredictContribitions,
    PredictApproximateContributions,
    PredictFeatureInteractions,
    PredictApproximateFeatureInteractions,
    PredictLeafTraining,
}

/// The number by which the engine knows a prediction variant.
pub open spec fn predict_type_code(t: PredictType) -> nat {
    match t {
        PredictType::Normal => 0,
        PredictType::OutputMargin => 1,
        PredictType::PredictContribitions => 2,
        PredictType::PredictApproximateContributions => 3,
        PredictType::PredictFeatureInteractions => 4,
        PredictType::PredictApproximateFeatureInteractions => 5,
        PredictType::PredictLeafTraining => 6,
    }
}

impl PredictType {
    /// The number by which the engine knows this variant.
    pub fn code(&self) -> (r: u64)
        ensures
            r as nat == predict_type_code(*self),
    {
        match self {
            PredictType::Normal => 0,
            PredictType::OutputMargin => 1,
            PredictType::PredictContribitions => 2,
            PredictType::PredictApproximateContributions => 3,
            PredictType::PredictFeatureInteractions => 4,
            PredictType::PredictApproximateFeatureInteractions => 5,
            PredictType::PredictLeafTraining => 6,
        }
    }
}

/// Settings of one call of the generalised predict call.
#[derive(Default)]
pub struct PredictConfig {
    pub _type: PredictType,
    pub training: bool,
    pub iteration_begin: i64,
    pub iteration_end: i64,
    pub strict_shape: bool,
}

pub open spec fn bool_text(b: bool) -> Seq<char> {
    if b {
        "true"@
    } else {
        "false"@
    }
}

/// The configuration text of a prediction request, ending with a NUL character.
pub open spec fn predict_config_json(c: PredictConfig) -> Seq<char> {
    "{\"type\":"@ + nat_text(predict_type_code(c._type)) + ",\"training\":"@ + bool_text(
        c.training,
    ) + ",\"iteration_begin\":"@ + int_text(c.iteration_begin as int) + ",\"iteration_end\":"@
        + int_text(c.iteration_end as int) + ",\"strict_shape\":"@ + bool_text(c.strict_shape)
        + "}\0"@
}

fn bool_str(b: bool) -> (r: &'static str)
    ensures
        r@ == bool_text(b),
{
    if b {
        "true"
    } else {
        "false"
    }
}

impl PredictConfig {
    /// Returns the NUL-terminated JSON text of this configuration, as the generalised
    /// predict call reads it.
    pub fn as_json(&self) -> (r: String)
        ensures
            r@ == predict_config_json(*self),
    {
        let mut s = String::from_str("{\"type\":");
        push_nat(&mut s, self._type.code());
        s.append(",\"training\":");
        s.append(bool_str(self.training));
        s.append(",\"iteration_begin\":");
        push_int(&mut s, self.iteration_begin);
        s.append(",\"iteration_end\":");
        push_int(&mut s, self.iteration_end);
        s.append(",\"strict_shape\":");
        s.append(bool_str(self.strict_shape));
        s.append("}\0");
        s
    }
}

/// Options of the classic predict call, each one bit of its option mask.
#[derive(Clone, Copy, Debug, PartialEq, Eq, Structural)]
pub enum PredictOption {
    OutputMargin,
    PredictLeaf,
    PredictContribitions,
    PredictInteractions,
}

pub open spec fn option_bit(o: PredictOption) -> i32 {
    match o {
        PredictOption::OutputMargin => 0x01,
        PredictOption::PredictLeaf => 0x02,
        PredictOption::PredictContribitions => 0x04,
        PredictOption::PredictInteractions => 0x10,
    }
}

/// The union of the bits of the options.
pub open spec fn options_mask(options: Seq<PredictOption>) -> i32
    decreases options.len(),
{
    if options.len() == 0 {
        0
    } else {
        options_mask(options.drop_last()) | option_bit(options.last())
    }
}

proof fn lemma_or_and(x: i32, b: i32, c: i32)
    ensures
        ((x | b) & c != 0) == ((x & c != 0) || (b & c != 0)),
{
    assert(((x | b) & c != 0) == ((x & c != 0) || (b & c != 0))) by (bit_vector);
}

proof fn lemma_bits_distinct(a: PredictOption, o: PredictOption)
    ensures
        (option_bit(a) & option_bit(o) != 0) == (a == o),
{
    assert(1i32 & 1i32 != 0 && 1i32 & 2i32 == 0 && 1i32 & 4i32 == 0 && 1i32 & 16i32 == 0)
        by (bit_vector);
    assert(2i32 & 1i32 == 0 && 2i32 & 2i32 != 0 && 2i32 & 4i32 == 0 && 2i32 & 16i32 == 0)
        by (bit_vector);
    assert(4i32 & 1i32 == 0 && 4i32 & 2i32 == 0 && 4i32 & 4i32 != 0 && 4i32 & 16i32 == 0)
        by (bit_vector);
    assert(16i32 & 1i32 == 0 && 16i32 & 2i32 == 0 && 16i32 & 4i32 == 0 && 16i32 & 16i32 != 0)
        by (bit_vector);
}

/// The bit of an option is set in the mask exactly when the option is listed.
pub proof fn lemma_mask_lists_options(options: Seq<PredictOption>, o: PredictOption)
    ensures
        (options_mask(options) & option_bit(o) != 0) == options.contains(o),
    decreases options.len(),
{
    if options.len() == 0 {
        let c = option_bit(o);
        assert(0i32 & c == 0) by (bit_vector);
    } else {
        let init = options.drop_last();
        lemma_mask_lists_options(init, o);
        lemma_or_and(options_mask(init), option_bit(options.last()), option_bit(o));
        lemma_bits_distinct(options.last(), o);
        if init.contains(o) {
            let k = choose|k: int| 0 <= k < init.len() && init[k] == o;
            assert(options[k] == o);
        }
        if options.contains(o) {
            let k = choose|k: int| 0 <= k < options.len() && options[k] == o;
            if k < options.len() - 1 {
                assert(init[k] == o);
            }
        }
    }
}

impl PredictOption {
    /// Convert list of options into a bit mask.
    pub fn options_as_mask(options: &[PredictOption]) -> (r: i32)
        ensures
            r == options_mask(options@),
    {
        let mut option_mask: i32 = 0x00;
        let mut i: usize = 0;
        assert(options@.take(0) =~= Seq::<PredictOption>::empty());
        while i < options.len()
            invariant
                i <= options@.len(),
                option_mask == options_mask(options@.take(i as int)),
            decreases options.len() - i,
        {
            let value: i32 = match options[i] {
                PredictOption::OutputMargin => 0x01,
                PredictOption::PredictLeaf => 0x02,
                PredictOption::PredictContribitions => 0x04,
                PredictOption::PredictInteractions => 0x10,
            };
            assert(options@.take(i + 1 as int).drop_last() =~= options@.take(i as int));
            option_mask = option_mask | value;
            i = i + 1;
        }
        assert(options@.take(i as int) =~= options@);
        option_mask
    }
}

/// Shape `(rows, columns)` of a row-major output of `len` values over `num_rows` rows,
/// as leaf-index and contribution predictions have it. A dataset without rows has no
/// such shape.
pub fn matrix_shape(len: usize, num_rows: usize) -> (r: Result<(usize, usize), XGBError>)
    ensures
        num_rows == 0 ==> r is Err && r->Err_0.kind == ErrorKind::Validation,
        num_rows > 0 ==> r is Ok && r->Ok_0 == (num_rows, len / num_rows),
{
    if num_rows == 0 {
        return Err(XGBError::new(ErrorKind::Validation, String::from_str("the dataset has no rows")));
    }
    Ok((num_rows, len / num_rows))
}

/// Largest `r` with `r * r <= q`.
pub fn isqrt(q: u64) -> (r: u64)
    ensures
        r * r <= q,
        q < (r + 1) * (r + 1),
{
    let mut lo: u64 = 0;
    let mut hi: u64 = 0x1_0000_0000;
    assert(q < hi * hi) by (nonlinear_arith)
        requires
            hi == 0x1_0000_0000u64,
    ;
    while hi - lo > 1
        invariant
            lo < hi <= 0x1_0000_0000,
            lo * lo <= q,
            q < hi * hi,
        decreases hi - lo,
    {
        let mid: u64 = lo + (hi - lo) / 2;
        assert(mid * mid < 0x1_0000_0000_0000_0000) by (nonlinear_arith)
            requires
                mid < 0x1_0000_0000,
        ;
        if mid * mid <= q {
            lo = mid;
        } else {
            hi = mid;
        }
    }
    lo
}

/// Shape `(rows, d, d)` of an interaction prediction of `len` values over `num_rows`
/// rows, where `d` is the whole square root of the values per row.
pub fn interaction_shape(len: usize, num_rows: usize) -> (r: Result<
    (usize, usize, usize),
    XGBError,
>)
    ensures
        num_rows == 0 ==> r is Err && r->Err_0.kind == ErrorKind::Validation,
        num_rows > 0 ==> r is Ok && r->Ok_0.0 == num_rows && r->Ok_0.1 == r->Ok_0.2 && r->Ok_0.1
            * r->Ok_0.1 <= len / num_rows < (r->Ok_0.1 + 1) * (r->Ok_0.1 + 1),
{
    if num_rows == 0 {
        return Err(XGBError::new(ErrorKind::Validation, String::from_str("the dataset has no rows")));
    }
    let per_row = len / num_rows;
    let d = isqrt(per_row as u64);
    assert(d <= per_row) by (nonlinear_arith)
        requires
            d * d <= per_row,
    ;
    Ok((num_rows, d as usize, d as usize))
}

/// Product of the dimensions of a shape.
pub open spec fn shape_product(shape: Seq<u64>) -> nat
    decreases shape.len(),
{
    if shape.len() == 0 {
        1
    } else {
        shape_product(shape.drop_last()) * (shape.last() as nat)
    }
}

proof fn lemma_product_zero(shape: Seq<u64>, k: int)
    requires
        0 <= k < shape.len(),
        shape[k] == 0,
    ensures
        shape_product(shape) == 0,
    decreases shape.len(),
{
    if k < shape.len() - 1 {
        assert(shape.drop_last()[k] == 0);
        lemma_product_zero(shape.drop_last(), k);
        assert(shape_product(shape) == shape_product(shape.drop_last()) * (shape.last() as nat));
    } else {
        assert(shape.last() == 0);
        assert(shape_product(shape) == shape_product(shape.drop_last()) * 0);
    }
}

proof fn lemma_product_grows(shape: Seq<u64>, k: int)
    requires
        0 <= k <= shape.len(),
        forall|i: int| 0 <= i < shape.len() ==> shape[i] > 0,
    ensures
        shape_product(shape.take(k)) <= shape_product(shape),
    decreases shape.len(),
{
    if k == shape.len() {
        assert(shape.take(k) =~= shape);
    } else {
        assert(shape.drop_last().take(k) =~= shape.take(k));
        lemma_product_grows(shape.drop_last(), k);
        let p = shape_product(shape.drop_last());
        assert(p * shape.last() >= p) by (nonlinear_arith)
            requires
                shape.last() > 0,
        ;
    }
}

/// Number of values in an output of the given shape, if it fits in `u64`.
pub fn shape_size(shape: &[u64]) -> (r: Option<u64>)
    ensures
        shape_product(shape@) <= u64::MAX ==> r == Some(shape_product(shape@) as u64),
        shape_product(shape@) > u64::MAX ==> r is None,
{
    let mut k: usize = 0;
    while k < shape.len()
        invariant
            k <= shape@.len(),
            forall|i: int| 0 <= i < k ==> shape@[i] > 0,
        decreases shape.len() - k,
    {
        if shape[k] == 0 {
            proof {
                lemma_product_zero(shape@, k as int);
            }
            return Some(0);
        }
        k = k + 1;
    }
    let mut size: u64 = 1;
    let mut i: usize = 0;
    assert(shape@.take(0) =~= Seq::<u64>::empty());
    while i < shape.len()
        invariant
            i <= shape@.len(),
            forall|j: int| 0 <= j < shape@.len() ==> shape@[j] > 0,
            size as nat == shape_product(shape@.take(i as int)),
        decreases shape.len() - i,
    {
        assert(shape@.take(i + 1 as int).drop_last() =~= shape@.take(i as int));
        match size.checked_mul(shape[i]) {
            Some(next) => {
                size = next;
            },
            None => {
                proof {
                    lemma_product_grows(shape@, i + 1);
                }
                return None;
            },
        }
        i = i + 1;
    }
    assert(shape@.take(i as int) =~= shape@);
    Some(size)
}

} // verus!
