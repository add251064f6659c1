//! SQL type families and the rule that decides which family two operands share.

use vstd::prelude::*;

verus! {

/// The category of a storable value.
#[derive(Debug, PartialEq, Eq, Clone, Copy, Structural)]
pub enum SqlTypeFamily {
    Bool,
    String,
    SmallInt,
    Integer,
    BigInt,
}

impl View for SqlTypeFamily {
    type V = SqlTypeFamily;

    open spec fn view(&self) -> SqlTypeFamily {
        *self
    }
}

impl DeepView for SqlTypeFamily {
    type V = SqlTypeFamily;

    open spec fn deep_view(&self) -> SqlTypeFamily {
        *self
    }
}

impl SqlTypeFamily {
    /// Whether the family is one of the fixed-width signed integers.
    pub open spec fn is_integer(self) -> bool {
        self is SmallInt || self is Integer || self is BigInt
    }

    /// Width in bits of an integer family; zero for the others.
    pub open spec fn width(self) -> nat {
        match self {
            SqlTypeFamily::SmallInt => 16,
            SqlTypeFamily::Integer => 32,
            SqlTypeFamily::BigInt => 64,
            _ => 0,
        }
    }

    /// Smallest value an integer family can hold, `-2^(width - 1)`.
    pub open spec fn lower_bound(self) -> int {
        match self {
            SqlTypeFamily::SmallInt => -0x8000,
            SqlTypeFamily::Integer => -0x8000_0000,
            SqlTypeFamily::BigInt => -0x8000_0000_0000_0000,
            _ => 0,
        }
    }

    /// Largest value an integer family can hold, `2^(width - 1) - 1`.
    pub open spec fn upper_bound(self) -> int {
        match self {
            SqlTypeFamily::SmallInt => 0x7fff,
            SqlTypeFamily::Integer => 0x7fff_ffff,
            SqlTypeFamily::BigInt => 0x7fff_ffff_ffff_ffff,
            _ => 0,
        }
    }

    /// The family two operands have in common: the family itself for equal
    /// operands, the wider one for two integer families, none otherwise.
    pub open spec fn widest(self, other: SqlTypeFamily) -> Option<SqlTypeFamily> {
        if self == other {
            Some(self)
        } else if self.is_integer() && other.is_integer() {
            if self.width() >= other.width() {
                Some(self)
            } else {
                Some(other)
            }
        } else {
            None
        }
    }

    /// Exec counterpart of [`Self::is_integer`].
    pub fn is_integer_family(&self) -> (r: bool)
        ensures
            r == self.is_integer(),
    {
        match self {
            SqlTypeFamily::SmallInt | SqlTypeFamily::Integer | SqlTypeFamily::BigInt => true,
            _ => false,
        }
    }

    /// Inclusive range of an integer family, `None` for the other families.
    pub fn range(&self) -> (r: Option<(i64, i64)>)
        ensures
            self.is_integer() ==> r == Some((self.lower_bound() as i64, self.upper_bound() as i64)),
            !self.is_integer() ==> r.is_none(),
    {
        match self {
            SqlTypeFamily::SmallInt => Some((-0x8000, 0x7fff)),
            SqlTypeFamily::Integer => Some((-0x8000_0000, 0x7fff_ffff)),
            SqlTypeFamily::BigInt => Some((i64::MIN, i64::MAX)),
            _ => None,
        }
    }

    /// Compares two families: `Ok` with the common family when they are
    /// compatible, `Err` when they are not.
    pub fn compare(&self, other: &SqlTypeFamily) -> (r: Result<SqlTypeFamily, ()>)
        ensures
            r == match self.widest(*other) {
                Some(family) => Ok::<SqlTypeFamily, ()>(family),
                None => Err(()),
            },
    {
        match (self, other) {
            (SqlTypeFamily::Bool, SqlTypeFamily::Bool) => Ok(SqlTypeFamily::Bool),
            (SqlTypeFamily::String, SqlTypeFamily::String) => Ok(SqlTypeFamily::String),
            (SqlTypeFamily::Bool, _) | (_, SqlTypeFamily::Bool) => Err(()),
            (SqlTypeFamily::String, _) | (_, SqlTypeFamily::String) => Err(()),
            (SqlTypeFamily::BigInt, _) | (_, SqlTypeFamily::BigInt) => Ok(SqlTypeFamily::BigInt),
            (SqlTypeFamily::Integer, _) | (_, SqlTypeFamily::Integer) => Ok(
                SqlTypeFamily::Integer,
            ),
            (SqlTypeFamily::SmallInt, SqlTypeFamily::SmallInt) => Ok(SqlTypeFamily::SmallInt),
        }
    }
}

/// The bounds of a family of width `w` are `-2^(w-1)` and `2^(w-1) - 1`.
pub proof fn lemma_bounds_follow_width(family: SqlTypeFamily)
    requires
        family.is_integer(),
    ensures
        family.lower_bound() == -vstd::arithmetic::power2::pow2((family.width() - 1) as nat),
        family.upper_bound() == vstd::arithmetic::power2::pow2((family.width() - 1) as nat) - 1,
{
    vstd::arithmetic::power2::lemma2_to64();
    vstd::arithmetic::power2::lemma2_to64_rest();
}

/// Comparing a family with itself gives that family.
pub proof fn lemma_compare_reflexive(a: SqlTypeFamily)
    ensures
        a.widest(a) == Some(a),
{
}

/// The outcome of a comparison does not depend on the order of the operands.
pub proof fn lemma_compare_symmetric(a: SqlTypeFamily, b: SqlTypeFamily)
    ensures
        a.widest(b) == b.widest(a),
{
}

/// Two integer families are always compatible, and their common family is
/// the one of greater width.
pub proof fn lemma_compare_integers_widen(a: SqlTypeFamily, b: SqlTypeFamily)
    requires
        a.is_integer(),
        b.is_integer(),
    ensures
        a.widest(b) is Some,
        a.widest(b)->0.is_integer(),
        a.widest(b)->0.width() == if a.width() >= b.width() { a.width() } else { b.width() },
        a.widest(b)->0 == a || a.widest(b)->0 == b,
{
}

/// Different families are compatible only when both are integer families:
/// an integer never meets a string or a boolean, nor a string a boolean.
pub proof fn lemma_compare_rejects_mixed_kinds(a: SqlTypeFamily, b: SqlTypeFamily)
    requires
        a != b,
        !(a.is_integer() && b.is_integer()),
    ensures
        a.widest(b) is None,
{
}

} // verus!
