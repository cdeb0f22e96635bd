use vstd::prelude::*;

verus! {

/// A ternary value: -1, 0 or +1.
#[derive(Clone, Copy, Debug, PartialEq, Eq, Structural)]
pub enum Ternary {
    Neg,
    Zero,
    Pos,
}

impl Ternary {
    /// The integer that a ternary value stands for.
    pub open spec fn value(self) -> int {
        match self {
            Ternary::Neg => -1,
            Ternary::Zero => 0,
            Ternary::Pos => 1,
        }
    }

    /// The ternary value whose integer is `v`, if there is one.
    pub open spec fn of_value(v: int) -> Option<Ternary> {
        if v == -1 {
            Some(Ternary::Neg)
        } else if v == 0 {
            Some(Ternary::Zero)
        } else if v == 1 {
            Some(Ternary::Pos)
        } else {
            None
        }
    }

    /// The value as an `i8`: -1, 0 or 1.
    pub fn to_i8(self) -> (v: i8)
        ensures
            v == self.value(),
    {
        match self {
            Ternary::Neg => -1,
            Ternary::Zero => 0,
            Ternary::Pos => 1,
        }
    }

    /// The ternary value whose integer is `v`, if `v` is -1, 0 or 1.
    pub fn from_i8(v: i8) -> (t: Option<Ternary>)
        ensures
            t == Ternary::of_value(v as int),
    {
        match v {
            -1 => Some(Ternary::Neg),
            0 => Some(Ternary::Zero),
            1 => Some(Ternary::Pos),
            _ => None,
        }
    }
}

impl Ternary {
    /// The value that quantization picks from the outcome of its two
    /// threshold tests.
    pub open spec fn quantized(above_upper: bool, below_lower: bool) -> Ternary {
        if above_upper {
            Ternary::Pos
        } else if below_lower {
            Ternary::Neg
        } else {
            Ternary::Zero
        }
    }

    /// Quantizes a value from the outcome of its two threshold tests: `Pos`
    /// when it lies above the upper threshold, else `Neg` when it lies below the
    /// lower one, else `Zero`.
    pub fn quantize(above_upper: bool, below_lower: bool) -> (t: Ternary)
        ensures
            t == Ternary::quantized(above_upper, below_lower),
    {
        if above_upper {
            Ternary::Pos
        } else if below_lower {
            Ternary::Neg
        } else {
            Ternary::Zero
        }
    }
}

/// A reservoir state of `size` nodes, all at zero.
pub fn zero_state(size: usize) -> (s: Vec<Ternary>)
    ensures
        s@.len() == size,
        forall|i: int| 0 <= i < size ==> #[trigger] s@[i] == Ternary::Zero,
{
    let mut s: Vec<Ternary> = Vec::new();
    let mut i: usize = 0;
    while i < size
        invariant
            i <= size,
            s@.len() == i,
            forall|k: int| 0 <= k < i ==> #[trigger] s@[k] == Ternary::Zero,
        decreases size - i,
    {
        s.push(Ternary::Zero);
        i = i + 1;
    }
    s
}

/// Every ternary value is found again from its integer.
pub proof fn law_value_roundtrip(t: Ternary)
    ensures
        Ternary::of_value(t.value()) == Some(t),
{
}

/// Quantizing a ternary value's own integer with symmetric thresholds
/// `num / den` and `-num / den`, where `0 <= num < den`, gives that value back.
pub proof fn law_quantize_recovers_value(t: Ternary, num: int, den: int)
    requires
        0 <= num < den,
    ensures
        Ternary::quantized(t.value() * den > num, t.value() * den < -num) == t,
{
}

/// An integer that names a ternary value is that value's integer, and only
/// -1, 0 and 1 name one.
pub proof fn law_of_value_inverse(v: int)
    ensures
        Ternary::of_value(v) matches Some(t) ==> t.value() == v,
        Ternary::of_value(v) is Some <==> (v == -1 || v == 0 || v == 1),
{
}

} // verus!
