//! The six rounding modes that every rounding operation takes as a parameter.

use vstd::prelude::*;

verus! {

/// How an exact quotient is turned into a whole number.
#[derive(Clone, Copy, Debug, PartialEq, Eq, Structural, Hash)]
pub enum RoundingMode {
    /// Towards zero.
    Down,
    /// Away from zero.
    Up,
    /// Towards negative infinity.
    Floor,
    /// Towards positive infinity.
    Ceiling,
    /// To the closest value; a tie goes to the neighbour with the even quotient.
    Nearest,
    /// The quotient must already be whole.
    Exact,
}

impl RoundingMode {
    /// The mode that does to `-x` what `self` does to `x`: `Floor` and `Ceiling`
    /// change places, the other four stay.
    pub open spec fn negated(self) -> RoundingMode {
        match self {
            RoundingMode::Floor => RoundingMode::Ceiling,
            RoundingMode::Ceiling => RoundingMode::Floor,
            other => other,
        }
    }

    /// The name of the mode.
    pub open spec fn name(self) -> Seq<char> {
        match self {
            RoundingMode::Down => "Down"@,
            RoundingMode::Up => "Up"@,
            RoundingMode::Floor => "Floor"@,
            RoundingMode::Ceiling => "Ceiling"@,
            RoundingMode::Nearest => "Nearest"@,
            RoundingMode::Exact => "Exact"@,
        }
    }

    /// Returns the name of the mode: `Down`, `Up`, `Floor`, `Ceiling`,
    /// `Nearest` or `Exact`.
    pub fn to_string(&self) -> (r: String)
        ensures
            r@ == self.name(),
    {
        match self {
            RoundingMode::Down => "Down".to_owned(),
            RoundingMode::Up => "Up".to_owned(),
            RoundingMode::Floor => "Floor".to_owned(),
            RoundingMode::Ceiling => "Ceiling".to_owned(),
            RoundingMode::Nearest => "Nearest".to_owned(),
            RoundingMode::Exact => "Exact".to_owned(),
        }
    }

    /// Returns the mode to use on a magnitude whose sign has been taken off.
    pub fn neg(self) -> (r: RoundingMode)
        ensures
            r == self.negated(),
    {
        match self {
            RoundingMode::Floor => RoundingMode::Ceiling,
            RoundingMode::Ceiling => RoundingMode::Floor,
            other => other,
        }
    }
}

/// The absolute value of an integer.
pub open spec fn magnitude(x: int) -> nat {
    if x >= 0 {
        x as nat
    } else {
        (-x) as nat
    }
}

/// `x` is `k` times `y` for some integer `k`. Zero is a multiple of every
/// number, itself included; nothing else is a multiple of zero.
pub open spec fn is_multiple(x: int, y: int) -> bool {
    exists|k: int| x == #[trigger] (k * y)
}

/// The quotient `x / d`, for a positive `d`, turned into an integer as the
/// mode says. Under `Exact` the quotient must be whole already.
pub open spec fn div_round_spec(x: int, d: int, rm: RoundingMode) -> int
    recommends
        d > 0,
{
    let q = x / d;
    let r = x % d;
    if r == 0 {
        q
    } else {
        match rm {
            RoundingMode::Floor => q,
            RoundingMode::Ceiling => q + 1,
            RoundingMode::Down => if x >= 0 {
                q
            } else {
                q + 1
            },
            RoundingMode::Up => if x >= 0 {
                q + 1
            } else {
                q
            },
            RoundingMode::Nearest => if 2 * r < d {
                q
            } else if 2 * r > d {
                q + 1
            } else if q % 2 == 0 {
                q
            } else {
                q + 1
            },
            RoundingMode::Exact => q,
        }
    }
}

/// Whether `x / d` can be rounded under the mode: the divisor is not zero,
/// and under `Exact` the quotient is whole.
pub open spec fn can_div_round(x: int, d: int, rm: RoundingMode) -> bool {
    d != 0 && (rm is Exact ==> x % (magnitude(d) as int) == 0)
}

/// The quotient `x / y`, for a divisor of either sign that is not zero,
/// turned into an integer as the mode says.
pub open spec fn div_round_signed_spec(x: int, y: int, rm: RoundingMode) -> int {
    if y > 0 {
        div_round_spec(x, y, rm)
    } else {
        div_round_spec(-x, -y, rm)
    }
}

/// The multiple of `m` that `x` is rounded to under the mode. The only
/// multiple of zero is zero.
pub open spec fn round_to_multiple_spec(x: int, m: int, rm: RoundingMode) -> int {
    if m == 0 {
        0
    } else {
        div_round_spec(x, magnitude(m) as int, rm) * magnitude(m)
    }
}

/// Whether `x` can be rounded to a multiple of `m` under the mode. To zero,
/// the only multiple of zero, a nonzero `x` is rounded only by a mode that
/// moves it towards zero; under `Exact`, `x` must be a multiple already.
pub open spec fn can_round_to_multiple(x: int, m: int, rm: RoundingMode) -> bool {
    if m == 0 {
        x == 0 || rm is Down || rm is Nearest || (x > 0 && rm is Floor) || (x < 0
            && rm is Ceiling)
    } else {
        rm is Exact ==> x % (magnitude(m) as int) == 0
    }
}

/// [`div_round_spec`] on natural numbers.
pub open spec fn div_round_nat(x: nat, d: nat, rm: RoundingMode) -> nat {
    div_round_spec(x as int, d as int, rm) as nat
}

/// [`can_div_round`] on natural numbers.
pub open spec fn can_div_round_nat(x: nat, d: nat, rm: RoundingMode) -> bool {
    can_div_round(x as int, d as int, rm)
}

/// [`round_to_multiple_spec`] on natural numbers.
pub open spec fn round_to_multiple_nat(x: nat, m: nat, rm: RoundingMode) -> nat {
    round_to_multiple_spec(x as int, m as int, rm) as nat
}

/// [`can_round_to_multiple`] on natural numbers.
pub open spec fn can_round_to_multiple_nat(x: nat, m: nat, rm: RoundingMode) -> bool {
    can_round_to_multiple(x as int, m as int, rm)
}

} // verus!
