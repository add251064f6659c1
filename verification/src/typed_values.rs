//! Runtime values: what evaluating a typed tree gives.

use crate::binary::{Datum, DatumValue};
use crate::decimal::{
    decimal_text, lemma_denotes_truncated, lemma_within_by_truncation, pow10, same_number,
    Decimal, DecimalValue,
};
use crate::types::SqlTypeFamily;
use vstd::prelude::*;

verus! {

/// A runtime value. The family of a number is the type it was declared
/// against, not one derived from its magnitude. Two values are `==` when
/// they are made of the same parts; whether they stand for the same value
/// is what [`TypedValue::same_as`] tells.
#[derive(Debug, PartialEq)]
pub enum TypedValue {
    Num { value: Decimal, type_family: SqlTypeFamily },
    String(String),
    Bool(bool),
}

/// The mathematical content of a runtime value.
pub enum TypedContent {
    Num { value: DecimalValue, type_family: SqlTypeFamily },
    String(Seq<char>),
    Bool(bool),
}

impl View for TypedValue {
    type V = TypedContent;

    open spec fn view(&self) -> TypedContent {
        match self {
            TypedValue::Num { value, type_family } => TypedContent::Num {
                value: value@,
                type_family: *type_family,
            },
            TypedValue::String(text) => TypedContent::String(text@),
            TypedValue::Bool(flag) => TypedContent::Bool(*flag),
        }
    }
}

impl DeepView for TypedValue {
    type V = TypedContent;

    open spec fn deep_view(&self) -> TypedContent {
        self@
    }
}

impl TypedContent {
    /// The family of the value.
    pub open spec fn family(self) -> SqlTypeFamily {
        match self {
            TypedContent::Num { type_family, .. } => type_family,
            TypedContent::String(_) => SqlTypeFamily::String,
            TypedContent::Bool(_) => SqlTypeFamily::Bool,
        }
    }

    /// The value as text.
    pub open spec fn text(self) -> Seq<char> {
        match self {
            TypedContent::Num { value, .. } => decimal_text(value.unscaled, value.scale),
            TypedContent::String(text) => text,
            TypedContent::Bool(flag) => if flag {
                "true"@
            } else {
                "false"@
            },
        }
    }

    /// Whether the family of the value is one that its kind can have: that
    /// of a number is an integer family.
    pub open spec fn well_tagged(self) -> bool {
        self matches TypedContent::Num { type_family, .. } ==> type_family.is_integer()
    }

    /// Whether the value has a storage cell: a number has one where its
    /// family is an integer family whose range holds it.
    pub open spec fn storable(self) -> bool {
        self matches TypedContent::Num { value, type_family } ==> type_family.is_integer()
            && value.within(type_family.lower_bound(), type_family.upper_bound())
    }

    /// The storage cell of the value: a number is rounded toward zero and
    /// narrowed to the width of its family.
    pub open spec fn cell(self) -> DatumValue {
        match self {
            TypedContent::Num { value, type_family: SqlTypeFamily::SmallInt } => DatumValue::Int16(
                value.truncated() as i16,
            ),
            TypedContent::Num { value, type_family: SqlTypeFamily::Integer } => DatumValue::Int32(
                value.truncated() as i32,
            ),
            TypedContent::Num { value, .. } => DatumValue::Int64(value.truncated() as i64),
            TypedContent::String(text) => DatumValue::String(text),
            TypedContent::Bool(flag) => if flag {
                DatumValue::True
            } else {
                DatumValue::False
            },
        }
    }

    /// The value that a storage cell holds; none for the null marker.
    pub open spec fn of_cell(cell: DatumValue) -> Option<TypedContent> {
        match cell {
            DatumValue::Null => None,
            DatumValue::True => Some(TypedContent::Bool(true)),
            DatumValue::False => Some(TypedContent::Bool(false)),
            DatumValue::Int16(n) => Some(
                TypedContent::Num {
                    value: DecimalValue { unscaled: n as int, scale: 0 },
                    type_family: SqlTypeFamily::SmallInt,
                },
            ),
            DatumValue::Int32(n) => Some(
                TypedContent::Num {
                    value: DecimalValue { unscaled: n as int, scale: 0 },
                    type_family: SqlTypeFamily::Integer,
                },
            ),
            DatumValue::Int64(n) => Some(
                TypedContent::Num {
                    value: DecimalValue { unscaled: n as int, scale: 0 },
                    type_family: SqlTypeFamily::BigInt,
                },
            ),
            DatumValue::String(text) => Some(TypedContent::String(text)),
        }
    }

    /// Whether two values are the same: numbers by the number they stand for
    /// and their family, strings and booleans by their content.
    pub open spec fn same_as(self, other: TypedContent) -> bool {
        match (self, other) {
            (
                TypedContent::Num { value: a, type_family: f },
                TypedContent::Num { value: b, type_family: g },
            ) => f == g && same_number(a, b),
            (TypedContent::String(a), TypedContent::String(b)) => a == b,
            (TypedContent::Bool(a), TypedContent::Bool(b)) => a == b,
            _ => false,
        }
    }
}

/// Whether every number among the values of a row is tagged with an integer
/// family.
pub open spec fn well_tagged_values(values: Seq<Option<TypedContent>>) -> bool {
    forall|i: int|
        0 <= i < values.len() ==> ((#[trigger] values[i]) matches Some(value)
            ==> value.well_tagged())
}

/// A storable value comes back from its storage cell as the same value,
/// unless it is a number with a fractional part: a number comes back
/// rounded toward zero.
pub proof fn lemma_cell_round_trip(value: TypedContent)
    requires
        value.storable(),
    ensures
        TypedContent::of_cell(value.cell()) is Some,
        value matches TypedContent::Num { value: number, type_family } ==> TypedContent::of_cell(
            value.cell(),
        ) == Some(
            TypedContent::Num {
                value: DecimalValue { unscaled: number.truncated(), scale: 0 },
                type_family,
            },
        ),
        !(value matches TypedContent::Num { value: number, .. } && number.has_fraction())
            ==> TypedContent::of_cell(value.cell())->0.same_as(value),
{
    if let TypedContent::Num { value: number, type_family } = value {
        lemma_within_by_truncation(number, type_family.lower_bound(), type_family.upper_bound());
        let n = number.truncated();
        if !number.has_fraction() {
            lemma_denotes_truncated(number, n);
            assert(pow10(0) == 1);
            if number.scale <= 0 {
                assert(n * 1 == n) by (nonlinear_arith);
                assert(number.unscaled * pow10((0 - number.scale) as nat) == n);
            } else {
                assert(number.unscaled * 1 == number.unscaled) by (nonlinear_arith);
                assert(n * pow10((number.scale - 0) as nat) == number.unscaled);
            }
        }
    }
}

/// The storage cell of a number at the width of an integer family whose
/// range holds it.
pub fn number_cell(value: &Decimal, family: SqlTypeFamily) -> (r: Datum)
    requires
        family.is_integer(),
        value@.within(family.lower_bound(), family.upper_bound()),
    ensures
        r@ == (TypedContent::Num { value: value@, type_family: family }).cell(),
{
    proof {
        lemma_within_by_truncation(value@, family.lower_bound(), family.upper_bound());
    }
    // A number within the range of the family narrows to its width: the
    // null marker is never reached.
    match family {
        SqlTypeFamily::SmallInt => match value.to_i16() {
            Some(n) => Datum::from_i16(n),
            None => Datum::from_null(),
        },
        SqlTypeFamily::Integer => match value.to_i32() {
            Some(n) => Datum::from_i32(n),
            None => Datum::from_null(),
        },
        _ => match value.to_i64() {
            Some(n) => Datum::from_i64(n),
            None => Datum::from_null(),
        },
    }
}

impl Clone for TypedValue {
    /// A value with the same content.
    fn clone(&self) -> (r: TypedValue)
        ensures
            r@ == self@,
    {
        match self {
            TypedValue::Num { value, type_family } => TypedValue::Num {
                value: value.clone(),
                type_family: *type_family,
            },
            TypedValue::String(text) => TypedValue::String(text.clone()),
            TypedValue::Bool(flag) => TypedValue::Bool(*flag),
        }
    }
}

impl TypedValue {
    /// The family of the value.
    pub fn type_family(&self) -> (r: Option<SqlTypeFamily>)
        ensures
            r == Some(self@.family()),
    {
        match self {
            TypedValue::Num { type_family, .. } => Some(*type_family),
            TypedValue::String(_) => Some(SqlTypeFamily::String),
            TypedValue::Bool(_) => Some(SqlTypeFamily::Bool),
        }
    }

    /// Whether two values are the same: numbers by the number they stand for
    /// and their family, strings and booleans by their content.
    pub fn same_as(&self, other: &TypedValue) -> (r: bool)
        ensures
            r == self@.same_as(other@),
    {
        match (self, other) {
            (
                TypedValue::Num { value: a, type_family: f },
                TypedValue::Num { value: b, type_family: g },
            ) => *f == *g && a.same_number(b),
            (TypedValue::String(a), TypedValue::String(b)) => *a == *b,
            (TypedValue::Bool(a), TypedValue::Bool(b)) => *a == *b,
            _ => false,
        }
    }

    /// The value as text: a number as its decimal text, a string as it is, a
    /// boolean as `true` or `false`.
    pub fn to_text(&self) -> (r: String)
        ensures
            r@ == self@.text(),
    {
        match self {
            TypedValue::Num { value, .. } => value.to_text(),
            TypedValue::String(text) => text.clone(),
            TypedValue::Bool(flag) => if *flag {
                "true".to_owned()
            } else {
                "false".to_owned()
            },
        }
    }

    /// Whether the value has a storage cell.
    pub fn is_storable(&self) -> (r: bool)
        ensures
            r == self@.storable(),
    {
        match self {
            TypedValue::Num { value, type_family } => match type_family.range() {
                Some((lo, hi)) => value.is_within(lo, hi),
                None => false,
            },
            _ => true,
        }
    }

    /// The storage cell of the value.
    pub fn convert(&self) -> (r: Datum)
        requires
            self@.storable(),
        ensures
            r@ == self@.cell(),
    {
        match self {
            TypedValue::Num { value, type_family } => number_cell(value, *type_family),
            TypedValue::String(text) => Datum::from_string(text.clone()),
            TypedValue::Bool(flag) => Datum::from_bool(*flag),
        }
    }

    /// The storage cell of the value, which is used up.
    pub fn as_to_datum(self) -> (r: Datum)
        requires
            self@.storable(),
        ensures
            r@ == self@.cell(),
    {
        self.convert()
    }

    /// The value that a storage cell holds; none for the null marker.
    pub fn from_datum(datum: &Datum) -> (r: Option<TypedValue>)
        ensures
            r is Some <==> TypedContent::of_cell(datum@) is Some,
            r matches Some(value) ==> TypedContent::of_cell(datum@) == Some(value@),
    {
        match datum {
            Datum::Null => None,
            Datum::True => Some(TypedValue::Bool(true)),
            Datum::False => Some(TypedValue::Bool(false)),
            Datum::Int16(n) => Some(
                TypedValue::Num {
                    value: Decimal::from_i64(*n as i64),
                    type_family: SqlTypeFamily::SmallInt,
                },
            ),
            Datum::Int32(n) => Some(
                TypedValue::Num {
                    value: Decimal::from_i64(*n as i64),
                    type_family: SqlTypeFamily::Integer,
                },
            ),
            Datum::Int64(n) => Some(
                TypedValue::Num {
                    value: Decimal::from_i64(*n),
                    type_family: SqlTypeFamily::BigInt,
                },
            ),
            Datum::String(text) => Some(TypedValue::String(text.clone())),
        }
    }
}

} // verus!
