//! The column types of the store: their wire identifiers and the
//! validation predicate each type imposes on a candidate text value.

use vstd::prelude::*;
use crate::text::{
    int_literal, parse_int_literal, str_eq, MAG_LIMIT,
};

verus! {

/// A column type: the tagged variants the catalog understands.  The
/// character types carry their declared length bound.
#[derive(Clone, Copy, PartialEq, Eq, Structural, Debug)]
pub enum SqlType {
    SmallInt,
    Integer,
    BigInt,
    Char(u64),
    VarChar(u64),
    Boolean,
}

/// The PostgreSQL-facing identity of a column type, used in wire
/// replies and error messages.
#[derive(Clone, Copy, PartialEq, Eq, Structural, Debug)]
pub enum PostgreSqlType {
    SmallInt,
    Integer,
    BigInt,
    Char,
    VarChar,
    Boolean,
}

/// Why a candidate value was refused by a column type.
#[derive(Clone, PartialEq, Eq, Debug)]
pub enum ConstraintError {
    /// The literal denotes a number outside the type's bounds.
    OutOfRange,
    /// The literal cannot be read as the declared type at all.
    TypeMismatch(String),
    /// The text is longer than the declared character bound; carries
    /// the offending length.
    ValueTooLong(u64),
}

/// Mathematical image of a [`ConstraintError`].
pub enum ConstraintErrorModel {
    OutOfRange,
    TypeMismatch(Seq<char>),
    ValueTooLong(int),
}

impl View for ConstraintError {
    type V = ConstraintErrorModel;

    open spec fn view(&self) -> ConstraintErrorModel {
        match self {
            ConstraintError::OutOfRange => ConstraintErrorModel::OutOfRange,
            ConstraintError::TypeMismatch(v) => ConstraintErrorModel::TypeMismatch(v@),
            ConstraintError::ValueTooLong(n) => ConstraintErrorModel::ValueTooLong(*n as int),
        }
    }
}

/// Lower bound of the numeric types, and the `true`/`false` spelling
/// of booleans.
pub open spec fn numeric_bounds(t: SqlType) -> (int, int)
    recommends
        t is SmallInt || t is Integer || t is BigInt,
{
    match t {
        SqlType::SmallInt => (-32768, 32767),
        SqlType::Integer => (-2147483648, 2147483647),
        _ => (-9223372036854775808, 9223372036854775807),
    }
}

/// Verdict of a column type on a candidate text value: `Ok` when the
/// value may be stored in a column of that type, otherwise the exact
/// refusal.
pub open spec fn spec_validate(t: SqlType, v: Seq<char>) -> Result<(), ConstraintErrorModel> {
    match t {
        SqlType::SmallInt | SqlType::Integer | SqlType::BigInt => match int_literal(v) {
            Option::None => Result::Err(ConstraintErrorModel::TypeMismatch(v)),
            Option::Some(n) => {
                let (lo, hi) = numeric_bounds(t);
                if lo <= n <= hi {
                    Result::Ok(())
                } else {
                    Result::Err(ConstraintErrorModel::OutOfRange)
                }
            },
        },
        SqlType::Char(len) => if v.len() <= len {
            Result::Ok(())
        } else {
            Result::Err(ConstraintErrorModel::ValueTooLong(v.len() as int))
        },
        SqlType::VarChar(len) => if v.len() <= len {
            Result::Ok(())
        } else {
            Result::Err(ConstraintErrorModel::ValueTooLong(v.len() as int))
        },
        SqlType::Boolean => if v == "true"@ || v == "false"@ {
            Result::Ok(())
        } else {
            Result::Err(ConstraintErrorModel::TypeMismatch(v))
        },
    }
}

/// A candidate value the type accepts.
pub open spec fn spec_valid(t: SqlType, v: Seq<char>) -> bool {
    spec_validate(t, v) is Ok
}

impl SqlType {
    /// The PostgreSQL-facing identity of this type.
    pub fn to_pg_types(&self) -> (r: PostgreSqlType)
        ensures
            r == self.spec_pg_type(),
    {
        match self {
            SqlType::SmallInt => PostgreSqlType::SmallInt,
            SqlType::Integer => PostgreSqlType::Integer,
            SqlType::BigInt => PostgreSqlType::BigInt,
            SqlType::Char(_) => PostgreSqlType::Char,
            SqlType::VarChar(_) => PostgreSqlType::VarChar,
            SqlType::Boolean => PostgreSqlType::Boolean,
        }
    }

    /// The PostgreSQL-facing identity, as a spec-level map.
    pub open spec fn spec_pg_type(&self) -> PostgreSqlType {
        match self {
            SqlType::SmallInt => PostgreSqlType::SmallInt,
            SqlType::Integer => PostgreSqlType::Integer,
            SqlType::BigInt => PostgreSqlType::BigInt,
            SqlType::Char(_) => PostgreSqlType::Char,
            SqlType::VarChar(_) => PostgreSqlType::VarChar,
            SqlType::Boolean => PostgreSqlType::Boolean,
        }
    }

    /// Hold a candidate text value against this type: `Ok` exactly
    /// when the value may be stored in a column of this type, and
    /// otherwise the refusal [`spec_validate`] prescribes.
    pub fn validate(&self, value: &str) -> (r: Result<(), ConstraintError>)
        ensures
            r is Ok <==> spec_valid(*self, value@),
            r matches Err(e) ==> Result::<(), ConstraintErrorModel>::Err(e@) == spec_validate(
                *self,
                value@,
            ),
    {
        match self {
            SqlType::SmallInt | SqlType::Integer | SqlType::BigInt => {
                let bound_neg: u64 = match self {
                    SqlType::SmallInt => 32768,
                    SqlType::Integer => 2147483648,
                    _ => MAG_LIMIT,
                };
                match parse_int_literal(value) {
                    Option::None => Result::Err(
                        ConstraintError::TypeMismatch(value.to_owned()),
                    ),
                    Option::Some(p) => {
                        let in_range = if p.oversized {
                            false
                        } else if p.negative {
                            p.magnitude <= bound_neg
                        } else {
                            p.magnitude < bound_neg
                        };
                        if in_range {
                            Result::Ok(())
                        } else {
                            Result::Err(ConstraintError::OutOfRange)
                        }
                    },
                }
            },
            SqlType::Char(len) => {
                let n = value.unicode_len();
                if n as u64 <= *len {
                    Result::Ok(())
                } else {
                    Result::Err(ConstraintError::ValueTooLong(n as u64))
                }
            },
            SqlType::VarChar(len) => {
                let n = value.unicode_len();
                if n as u64 <= *len {
                    Result::Ok(())
                } else {
                    Result::Err(ConstraintError::ValueTooLong(n as u64))
                }
            },
            SqlType::Boolean => {
                proof {
                    reveal_strlit("true");
                    reveal_strlit("false");
                }
                if str_eq(value, "true") || str_eq(value, "false") {
                    Result::Ok(())
                } else {
                    Result::Err(ConstraintError::TypeMismatch(value.to_owned()))
                }
            },
        }
    }
}

impl PostgreSqlType {
    /// Object identifier of the type in wire replies.
    pub fn pg_oid(&self) -> (r: u32)
        ensures
            r == self.spec_oid(),
    {
        match self {
            PostgreSqlType::SmallInt => 21,
            PostgreSqlType::Integer => 23,
            PostgreSqlType::BigInt => 20,
            PostgreSqlType::Char => 1042,
            PostgreSqlType::VarChar => 1043,
            PostgreSqlType::Boolean => 16,
        }
    }

    /// Object identifier of the type, as a spec-level map.
    pub open spec fn spec_oid(&self) -> u32 {
        match self {
            PostgreSqlType::SmallInt => 21u32,
            PostgreSqlType::Integer => 23u32,
            PostgreSqlType::BigInt => 20u32,
            PostgreSqlType::Char => 1042u32,
            PostgreSqlType::VarChar => 1043u32,
            PostgreSqlType::Boolean => 16u32,
        }
    }

    /// Byte width of the type on the wire; `-1` for the variable-width
    /// character types.
    pub fn pg_len(&self) -> (r: i16)
        ensures
            r == self.spec_len(),
    {
        match self {
            PostgreSqlType::SmallInt => 2,
            PostgreSqlType::Integer => 4,
            PostgreSqlType::BigInt => 8,
            PostgreSqlType::Char => -1,
            PostgreSqlType::VarChar => -1,
            PostgreSqlType::Boolean => 1,
        }
    }

    /// Byte width of the type, as a spec-level map.
    pub open spec fn spec_len(&self) -> i16 {
        match self {
            PostgreSqlType::SmallInt => 2i16,
            PostgreSqlType::Integer => 4i16,
            PostgreSqlType::BigInt => 8i16,
            PostgreSqlType::Char => -1i16,
            PostgreSqlType::VarChar => -1i16,
            PostgreSqlType::Boolean => 1i16,
        }
    }

    /// Lower-case name of the type as it appears in error messages.
    pub open spec fn spec_name(&self) -> Seq<char> {
        match self {
            PostgreSqlType::SmallInt => "smallint"@,
            PostgreSqlType::Integer => "integer"@,
            PostgreSqlType::BigInt => "bigint"@,
            PostgreSqlType::Char => "char"@,
            PostgreSqlType::VarChar => "varchar"@,
            PostgreSqlType::Boolean => "boolean"@,
        }
    }

    /// Lower-case name of the type as it appears in error messages.
    pub fn name(&self) -> (r: String)
        ensures
            r@ == self.spec_name(),
    {
        match self {
            PostgreSqlType::SmallInt => String::from_str("smallint"),
            PostgreSqlType::Integer => String::from_str("integer"),
            PostgreSqlType::BigInt => String::from_str("bigint"),
            PostgreSqlType::Char => String::from_str("char"),
            PostgreSqlType::VarChar => String::from_str("varchar"),
            PostgreSqlType::Boolean => String::from_str("boolean"),
        }
    }
}

/// Mathematical image of a [`ColumnDefinition`].
#[verifier::ext_equal]
pub struct ColumnModel {
    pub name: Seq<char>,
    pub sql_type: SqlType,
}

/// A named, typed column of a table.
#[derive(Clone, PartialEq, Eq, Debug)]
pub struct ColumnDefinition {
    pub name: String,
    pub sql_type: SqlType,
}

impl View for ColumnDefinition {
    type V = ColumnModel;

    open spec fn view(&self) -> ColumnModel {
        ColumnModel { name: self.name@, sql_type: self.sql_type }
    }
}

impl ColumnDefinition {
    /// The column's name.
    pub fn name(&self) -> (r: String)
        ensures
            r@ == self@.name,
    {
        self.name.clone()
    }

    /// The column's declared type.
    pub fn sql_type(&self) -> (r: SqlType)
        ensures
            r == self@.sql_type,
    {
        self.sql_type
    }
}


/// Law of round trips: the canonical text of any value inside a
/// numeric type's bounds is accepted by that type, so inserting it
/// and selecting it back yields the byte-identical text, the store
/// keeping cells verbatim.
pub proof fn lemma_in_range_text_validates(t: SqlType, v: int)
    requires
        t is SmallInt || t is Integer || t is BigInt,
        numeric_bounds(t).0 <= v <= numeric_bounds(t).1,
    ensures
        spec_valid(t, crate::text::dec_text_signed(v)),
{
    crate::text::lemma_int_literal_round_trip(v);
}

} // verus!
