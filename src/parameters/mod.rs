//! Booster parameters: validated settings that turn into the ordered key/value pairs
//! handed to the engine.
use crate::text::{digit_char, nat_text, push_char, push_nat};
use vstd::prelude::*;

pub mod dart;
pub mod linear;

verus! {

/// Largest number of digits after the decimal point.
pub const MAX_SCALE: u32 = 18;

pub open spec fn pow10(n: nat) -> nat
    decreases n,
{
    if n == 0 {
        1
    } else {
        10 * pow10((n - 1) as nat)
    }
}

/// An exact non-negative decimal number: `digits / 10^scale`.
#[derive(Clone, Copy, Debug, PartialEq, Eq, Structural)]
pub struct Decimal {
    digits: u64,
    scale: u32,
}

/// The last `width` decimal digits of `n`, with leading zeros.
pub open spec fn padded_text(n: nat, width: nat) -> Seq<char>
    decreases width,
{
    if width == 0 {
        Seq::empty()
    } else {
        padded_text(n / 10, (width - 1) as nat).push(digit_char(n % 10))
    }
}

impl Decimal {
    pub closed spec fn spec_digits(self) -> nat {
        self.digits as nat
    }

    pub closed spec fn spec_scale(self) -> nat {
        self.scale as nat
    }

    /// The number `digits / 10^scale`.
    pub fn new(digits: u64, scale: u32) -> (r: Decimal)
        requires
            scale <= MAX_SCALE,
        ensures
            r.spec_digits() == digits,
            r.spec_scale() == scale,
    {
        Decimal { digits, scale }
    }

    /// A whole number.
    pub fn whole(n: u64) -> (r: Decimal)
        ensures
            r.spec_digits() == n,
            r.spec_scale() == 0,
    {
        Decimal { digits: n, scale: 0 }
    }

    #[verifier::type_invariant]
    spec fn inv(self) -> bool {
        self.scale <= MAX_SCALE
    }

    /// The value is at most one.
    pub open spec fn spec_at_most_one(self) -> bool {
        self.spec_digits() <= pow10(self.spec_scale())
    }

    /// Decimal text: the whole part, then `.` and exactly `scale` digits when the scale
    /// is not zero.
    pub open spec fn spec_text(self) -> Seq<char> {
        let p = pow10(self.spec_scale());
        if self.spec_scale() == 0 {
            nat_text(self.spec_digits())
        } else {
            nat_text(self.spec_digits() / p) + seq!['.'] + padded_text(
                self.spec_digits() % p,
                self.spec_scale(),
            )
        }
    }

    pub fn at_most_one(&self) -> (r: bool)
        ensures
            r == self.spec_at_most_one(),
    {
        proof {
            use_type_invariant(self);
        }
        self.digits <= pow10_exec(self.scale)
    }

    /// The decimal text of the number.
    pub fn to_text(&self) -> (r: String)
        ensures
            r@ == self.spec_text(),
    {
        proof {
            use_type_invariant(self);
        }
        let mut s = String::new();
        if self.scale == 0 {
            push_nat(&mut s, self.digits);
        } else {
            let p = pow10_exec(self.scale);
            push_nat(&mut s, self.digits / p);
            push_char(&mut s, '.');
            push_padded(&mut s, self.digits % p, self.scale);
        }
        s
    }
}

proof fn lemma_pow10_grows(i: nat, j: nat)
    requires
        i <= j,
    ensures
        pow10(i) <= pow10(j),
        pow10(i) >= 1,
    decreases j,
{
    if i < j {
        lemma_pow10_grows(i, (j - 1) as nat);
    } else if i > 0 {
        lemma_pow10_grows((i - 1) as nat, (i - 1) as nat);
    }
}

fn pow10_exec(n: u32) -> (r: u64)
    requires
        n <= MAX_SCALE,
    ensures
        r as nat == pow10(n as nat),
        r >= 1,
{
    proof {
        reveal_with_fuel(pow10, 19);
        lemma_pow10_grows(n as nat, 18);
    }
    assert(pow10(18) == 1_000_000_000_000_000_000nat);
    let mut p: u64 = 1;
    let mut i: u32 = 0;
    while i < n
        invariant
            i <= n <= MAX_SCALE,
            p as nat == pow10(i as nat),
            pow10(n as nat) <= 1_000_000_000_000_000_000nat,
        decreases n - i,
    {
        proof {
            lemma_pow10_grows((i + 1) as nat, n as nat);
        }
        p = p * 10;
        i = i + 1;
    }
    proof {
        lemma_pow10_grows(n as nat, n as nat);
    }
    p
}

fn push_padded(s: &mut String, n: u64, width: u32)
    ensures
        final(s)@ == old(s)@ + padded_text(n as nat, width as nat),
    decreases width,
{
    if width > 0 {
        push_padded(s, n / 10, width - 1);
        push_char(s, crate::text::digit(n % 10));
    }
    assert(final(s)@ =~= old(s)@ + padded_text(n as nat, width as nat));
}

/// Key/value pairs as the engine receives them.
pub open spec fn pairs_view(v: Seq<(String, String)>) -> Seq<(Seq<char>, Seq<char>)> {
    v.map_values(|p: (String, String)| (p.0@, p.1@))
}

/// The engine's parameter table after setting each pair in order.
pub open spec fn apply_pairs(table: Map<Seq<char>, Seq<char>>, pairs: Seq<(Seq<char>, Seq<char>)>) -> Map<
    Seq<char>,
    Seq<char>,
>
    decreases pairs.len(),
{
    if pairs.len() == 0 {
        table
    } else {
        apply_pairs(table, pairs.drop_last()).insert(pairs.last().0, pairs.last().1)
    }
}

proof fn lemma_apply_overrides(table: Map<Seq<char>, Seq<char>>, pairs: Seq<(Seq<char>, Seq<char>)>)
    ensures
        apply_pairs(table, pairs) == table.union_prefer_right(apply_pairs(Map::empty(), pairs)),
    decreases pairs.len(),
{
    if pairs.len() == 0 {
        assert(table.union_prefer_right(Map::empty()) =~= table);
    } else {
        lemma_apply_overrides(table, pairs.drop_last());
        assert(apply_pairs(table, pairs) =~= table.union_prefer_right(
            apply_pairs(Map::empty(), pairs),
        ));
    }
}

/// Setting the same parameters a second time leaves the engine's parameter table as the
/// first time left it, whatever the table held before.
pub proof fn lemma_set_params_idempotent(
    table: Map<Seq<char>, Seq<char>>,
    pairs: Seq<(Seq<char>, Seq<char>)>,
)
    ensures
        apply_pairs(apply_pairs(table, pairs), pairs) == apply_pairs(table, pairs),
{
    let once = apply_pairs(table, pairs);
    lemma_apply_overrides(table, pairs);
    lemma_apply_overrides(once, pairs);
    assert(once.union_prefer_right(apply_pairs(Map::empty(), pairs)) =~= once);
}

} // verus!
