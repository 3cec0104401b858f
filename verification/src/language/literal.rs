//! Typed constants from the literals of a query.

use vstd::arithmetic::power2::{lemma2_to64, lemma_pow2_unfold, pow2};
use vstd::prelude::*;
use vstd::string::*;
use vstd::utf8::encode_utf8;

use crate::calendar::{parse_rfc3339, rfc3339_instant};
use crate::catalog::LogicalType;
use crate::decimal::{
    decimal_below, float32_is_finite, float64_is_finite, FLOAT32_LIMIT, FLOAT64_LIMIT,
};
use crate::language::ast::{
    Constructor, ConstructorKind, LiteralKind, NumericLiteralKind, NumericSign, NumericType,
    SignedNumericLiteral,
};
use crate::language::error::{Reason, SemanticError};
use crate::language::fold::integer_constant;
use crate::language::ir::{FloatConstant, FloatMagnitude, Literal, UtcInstant};
use crate::language::span::Span;
use crate::text::chars_of;

verus! {

/// Whether a type is a numeric one.
pub open spec fn is_numeric(logical_type: LogicalType) -> bool {
    is_integer(logical_type) || logical_type == LogicalType::Float32 || logical_type
        == LogicalType::Float64
}

/// Whether a type is an integer one.
pub open spec fn is_integer(logical_type: LogicalType) -> bool {
    logical_type == LogicalType::Int32 || logical_type == LogicalType::Int64 || logical_type
        == LogicalType::UInt32 || logical_type == LogicalType::UInt64
}

pub(crate) fn has_numeric(logical_type: LogicalType) -> (r: bool)
    ensures
        r == is_numeric(logical_type),
{
    matches!(
        logical_type,
        LogicalType::Int32 | LogicalType::Int64 | LogicalType::UInt32 | LogicalType::UInt64
        | LogicalType::Float32 | LogicalType::Float64
    )
}

/// The type that a numeric constructor makes.
pub open spec fn numeric_target(target: NumericType) -> LogicalType {
    match target {
        NumericType::Int32 => LogicalType::Int32,
        NumericType::Int64 => LogicalType::Int64,
        NumericType::UInt32 => LogicalType::UInt32,
        NumericType::UInt64 => LogicalType::UInt64,
        NumericType::Float32 => LogicalType::Float32,
        NumericType::Float64 => LogicalType::Float64,
    }
}

fn numeric_type(target: NumericType) -> (r: LogicalType)
    ensures
        r == numeric_target(target),
{
    match target {
        NumericType::Int32 => LogicalType::Int32,
        NumericType::Int64 => LogicalType::Int64,
        NumericType::UInt32 => LogicalType::UInt32,
        NumericType::UInt64 => LogicalType::UInt64,
        NumericType::Float32 => LogicalType::Float32,
        NumericType::Float64 => LogicalType::Float64,
    }
}

/// Where a significand of single precision ends.
pub const SINGLE_SIGNIFICAND_LIMIT: u64 = 16_777_216;

/// Where a significand of double precision ends.
pub const DOUBLE_SIGNIFICAND_LIMIT: u64 = 9_007_199_254_740_992;

/// Whether a number, without the zeros at the end of its binary numeral, is below a limit.
pub open spec fn is_exact(number: nat, limit: nat) -> bool
    decreases number,
{
    number < limit || (number > 0 && number % 2 == 0 && is_exact(number / 2, limit))
}

fn integer_is_exact(value: u64, limit: u64) -> (r: bool)
    requires
        limit > 0,
    ensures
        r == is_exact(value as nat, limit as nat),
{
    let mut number: u64 = value;
    while number >= limit && number % 2 == 0
        invariant
            limit > 0,
            is_exact(value as nat, limit as nat) == is_exact(number as nat, limit as nat),
        decreases number,
    {
        number = number / 2;
    }
    number < limit
}

/// A floating-point number that an integer is rounded to.
pub open spec fn integer_float(magnitude: u64, negative: bool, single: bool) -> FloatConstant {
    FloatConstant { negative, magnitude: FloatMagnitude::Integer(magnitude), single }
}

/// A floating-point constant of a type.
pub open spec fn float_literal(constant: FloatConstant, single: bool) -> Literal {
    if single {
        Literal::Float32(constant)
    } else {
        Literal::Float64(constant)
    }
}

/// The constant that an integer literal is in its context. Without one it is a 64-bit integer. An
/// unsigned constructor takes no minus sign, not even before a zero.
pub open spec fn contextual_integer(
    magnitude: u64,
    sign: NumericSign,
    expected: Option<LogicalType>,
    span: Span,
    constructor: bool,
) -> Result<Literal, SemanticError> {
    let target = match expected {
        Some(logical_type) => logical_type,
        None => LogicalType::Int64,
    };
    let minus = sign == NumericSign::Negative;
    let negative = minus && magnitude != 0;
    let number = if negative {
        -(magnitude as int)
    } else {
        magnitude as int
    };
    let outside = match target {
        LogicalType::Int32 => Reason::OutsideInt32,
        LogicalType::Int64 => Reason::OutsideInt64,
        _ => Reason::OutsideUInt32,
    };
    match target {
        LogicalType::Int32 | LogicalType::Int64 => match integer_constant(number, target) {
            Some(literal) => Ok(literal),
            None => Err(SemanticError::LiteralInvalid { reason: outside, span }),
        },
        LogicalType::UInt32 | LogicalType::UInt64 => if constructor && minus {
            Err(SemanticError::LiteralInvalid { reason: Reason::UnsignedMinus, span })
        } else if negative {
            Err(SemanticError::TypeMismatch { reason: Reason::NegativeUnsigned, span })
        } else {
            match integer_constant(number, target) {
                Some(literal) => Ok(literal),
                None => Err(SemanticError::LiteralInvalid { reason: outside, span }),
            }
        },
        LogicalType::Float32 => if is_exact(magnitude as nat, SINGLE_SIGNIFICAND_LIMIT as nat) {
            Ok(float_literal(integer_float(magnitude, negative, true), true))
        } else {
            Err(SemanticError::LiteralInvalid { reason: Reason::InexactFloat, span })
        },
        LogicalType::Float64 => if is_exact(magnitude as nat, DOUBLE_SIGNIFICAND_LIMIT as nat) {
            Ok(float_literal(integer_float(magnitude, negative, false), false))
        } else {
            Err(SemanticError::LiteralInvalid { reason: Reason::InexactFloat, span })
        },
        _ => Err(SemanticError::TypeMismatch { reason: Reason::IntegerRequiresNumeric, span }),
    }
}

/// Makes a constant of an integer literal in its context.
pub fn integer_literal(
    magnitude: u64,
    sign: NumericSign,
    expected: Option<LogicalType>,
    span: Span,
    constructor: bool,
) -> (r: Result<Literal, SemanticError>)
    ensures
        r == contextual_integer(magnitude, sign, expected, span, constructor),
{
    let target: LogicalType = match expected {
        Some(logical_type) => logical_type,
        None => LogicalType::Int64,
    };
    let minus: bool = sign == NumericSign::Negative;
    let negative: bool = minus && magnitude != 0;
    match target {
        LogicalType::Int32 => if negative && magnitude <= 2_147_483_648 {
            Ok(Literal::Int32((-(magnitude as i64)) as i32))
        } else if !negative && magnitude <= 2_147_483_647 {
            Ok(Literal::Int32(magnitude as i32))
        } else {
            Err(SemanticError::LiteralInvalid { reason: Reason::OutsideInt32, span })
        },
        LogicalType::Int64 => if negative && magnitude <= 9_223_372_036_854_775_808 {
            Ok(Literal::Int64((-(magnitude as i128)) as i64))
        } else if !negative && magnitude <= 9_223_372_036_854_775_807 {
            Ok(Literal::Int64(magnitude as i64))
        } else {
            Err(SemanticError::LiteralInvalid { reason: Reason::OutsideInt64, span })
        },
        LogicalType::UInt32 | LogicalType::UInt64 => if constructor && minus {
            Err(SemanticError::LiteralInvalid { reason: Reason::UnsignedMinus, span })
        } else if negative {
            Err(SemanticError::TypeMismatch { reason: Reason::NegativeUnsigned, span })
        } else if target == LogicalType::UInt64 {
            Ok(Literal::UInt64(magnitude))
        } else if magnitude <= 4_294_967_295 {
            Ok(Literal::UInt32(magnitude as u32))
        } else {
            Err(SemanticError::LiteralInvalid { reason: Reason::OutsideUInt32, span })
        },
        LogicalType::Float32 => if integer_is_exact(magnitude, SINGLE_SIGNIFICAND_LIMIT) {
            Ok(Literal::Float32(make_integer_float(magnitude, negative, true)))
        } else {
            Err(SemanticError::LiteralInvalid { reason: Reason::InexactFloat, span })
        },
        LogicalType::Float64 => if integer_is_exact(magnitude, DOUBLE_SIGNIFICAND_LIMIT) {
            Ok(Literal::Float64(make_integer_float(magnitude, negative, false)))
        } else {
            Err(SemanticError::LiteralInvalid { reason: Reason::InexactFloat, span })
        },
        _ => Err(SemanticError::TypeMismatch { reason: Reason::IntegerRequiresNumeric, span }),
    }
}

pub(crate) fn make_integer_float(magnitude: u64, negative: bool, single: bool) -> (r: FloatConstant)
    ensures
        r == integer_float(magnitude, negative, single),
{
    FloatConstant { negative, magnitude: FloatMagnitude::Integer(magnitude), single }
}

/// The constant that a literal is in its context.
pub open spec fn contextual_literal(
    kind: LiteralKind,
    expected: Option<LogicalType>,
    span: Span,
) -> Result<Literal, SemanticError> {
    match kind {
        LiteralKind::Null => match expected {
            Some(logical_type) => Ok(Literal::Null(logical_type)),
            None => Err(SemanticError::TypeMismatch { reason: Reason::NullWithoutType, span }),
        },
        LiteralKind::Boolean(value) => Ok(Literal::Boolean(value)),
        LiteralKind::Integer(magnitude) => contextual_integer(
            magnitude,
            NumericSign::NonNegative,
            expected,
            span,
            false,
        ),
        LiteralKind::FloatingPoint(text) => if decimal_below(
            encode_utf8(text@),
            FLOAT64_LIMIT@,
        ) {
            Ok(
                Literal::Float64(
                    FloatConstant {
                        negative: false,
                        magnitude: FloatMagnitude::Decimal(text),
                        single: false,
                    },
                ),
            )
        } else {
            Err(SemanticError::LiteralInvalid { reason: Reason::FloatNotFinite, span })
        },
        LiteralKind::String(value) => Ok(Literal::Utf8(value)),
    }
}

/// Makes a constant of a literal in its context.
pub fn convert_literal(kind: &LiteralKind, expected: Option<LogicalType>, span: Span) -> (r: Result<
    Literal,
    SemanticError,
>)
    ensures
        r == contextual_literal(*kind, expected, span),
{
    match kind {
        LiteralKind::Null => match expected {
            Some(logical_type) => Ok(Literal::Null(logical_type)),
            None => Err(SemanticError::TypeMismatch { reason: Reason::NullWithoutType, span }),
        },
        LiteralKind::Boolean(value) => Ok(Literal::Boolean(*value)),
        LiteralKind::Integer(magnitude) => integer_literal(
            *magnitude,
            NumericSign::NonNegative,
            expected,
            span,
            false,
        ),
        LiteralKind::FloatingPoint(text) => if float64_is_finite(text.as_str().as_bytes()) {
            Ok(
                Literal::Float64(
                    FloatConstant {
                        negative: false,
                        magnitude: FloatMagnitude::Decimal(text.clone()),
                        single: false,
                    },
                ),
            )
        } else {
            Err(SemanticError::LiteralInvalid { reason: Reason::FloatNotFinite, span })
        },
        LiteralKind::String(value) => Ok(Literal::Utf8(value.clone())),
    }
}

/// The constant that a numeric constructor makes.
pub open spec fn numeric_constant(target: NumericType, literal: SignedNumericLiteral, span: Span) -> Result<
    Literal,
    SemanticError,
> {
    let negative = literal.sign == NumericSign::Negative;
    let single = target == NumericType::Float32;
    let floating = single || target == NumericType::Float64;
    match literal.kind {
        NumericLiteralKind::Integer(magnitude) => if floating {
            Ok(float_literal(integer_float(magnitude, negative, single), single))
        } else {
            contextual_integer(magnitude, literal.sign, Some(numeric_target(target)), span, true)
        },
        NumericLiteralKind::FloatingPoint(text) => if !floating {
            Err(SemanticError::LiteralInvalid { reason: Reason::FloatingTargetRequired, span })
        } else if single && !decimal_below(encode_utf8(text@), FLOAT32_LIMIT@) {
            Err(SemanticError::LiteralInvalid { reason: Reason::Float32NotFinite, span })
        } else if !single && !decimal_below(encode_utf8(text@), FLOAT64_LIMIT@) {
            Err(SemanticError::LiteralInvalid { reason: Reason::Float64NotFinite, span })
        } else {
            Ok(
                float_literal(
                    FloatConstant { negative, magnitude: FloatMagnitude::Decimal(text), single },
                    single,
                ),
            )
        },
    }
}

fn numeric_constructor(target: NumericType, literal: &SignedNumericLiteral, span: Span) -> (r: Result<
    Literal,
    SemanticError,
>)
    ensures
        r == numeric_constant(target, *literal, span),
{
    let negative: bool = literal.sign == NumericSign::Negative;
    let single: bool = target == NumericType::Float32;
    let floating: bool = single || target == NumericType::Float64;
    match &literal.kind {
        NumericLiteralKind::Integer(magnitude) => {
            if !floating {
                return integer_literal(
                    *magnitude,
                    literal.sign,
                    Some(numeric_type(target)),
                    span,
                    true,
                );
            }
            let constant: FloatConstant = make_integer_float(*magnitude, negative, single);
            if single {
                Ok(Literal::Float32(constant))
            } else {
                Ok(Literal::Float64(constant))
            }
        },
        NumericLiteralKind::FloatingPoint(text) => {
            if !floating {
                return Err(
                    SemanticError::LiteralInvalid { reason: Reason::FloatingTargetRequired, span },
                );
            }
            let constant: FloatConstant = FloatConstant {
                negative,
                magnitude: FloatMagnitude::Decimal(text.clone()),
                single,
            };
            if single {
                if float32_is_finite(text.as_str().as_bytes()) {
                    Ok(Literal::Float32(constant))
                } else {
                    Err(SemanticError::LiteralInvalid { reason: Reason::Float32NotFinite, span })
                }
            } else if float64_is_finite(text.as_str().as_bytes()) {
                Ok(Literal::Float64(constant))
            } else {
                Err(SemanticError::LiteralInvalid { reason: Reason::Float64NotFinite, span })
            }
        },
    }
}

/// The instant that a parsed date-time is, if it is a whole millisecond.
pub open spec fn instant_of(parsed: Option<(i64, u32)>) -> Result<UtcInstant, Reason> {
    match parsed {
        None => Err(Reason::DatetimeNotRfc3339),
        Some((milliseconds, nanosecond)) => if nanosecond % 1_000_000 != 0 {
            Err(Reason::DatetimeTooPrecise)
        } else {
            Ok(UtcInstant(milliseconds))
        },
    }
}

/// Accepts a parsed date-time that is a whole millisecond.
pub fn accept_instant(parsed: Option<(i64, u32)>) -> (r: Result<UtcInstant, Reason>)
    ensures
        r == instant_of(parsed),
{
    match parsed {
        None => Err(Reason::DatetimeNotRfc3339),
        Some((milliseconds, nanosecond)) => if nanosecond % 1_000_000 != 0 {
            Err(Reason::DatetimeTooPrecise)
        } else {
            Ok(UtcInstant(milliseconds))
        },
    }
}

/// Reads a date-time with an offset.
pub fn parse_datetime(value: &str) -> (r: Result<UtcInstant, Reason>)
    ensures
        r == instant_of(rfc3339_instant(value@)),
{
    accept_instant(parse_rfc3339(value))
}

/// The value of a lowercase hexadecimal digit.
pub open spec fn hex_value(c: char) -> Option<u8> {
    if '0' <= c <= '9' {
        Some((c as u32 - 48) as u8)
    } else if 'a' <= c <= 'f' {
        Some((c as u32 - 87) as u8)
    } else {
        None
    }
}

/// Whether a text is the identity of an event: 32 lowercase hexadecimal digits.
pub open spec fn is_eid(text: Seq<char>) -> bool {
    text.len() == 32 && forall|i: int| 0 <= i < 32 ==> hex_value(#[trigger] text[i]) is Some
}

/// The byte that two hexadecimal digits are.
pub open spec fn eid_byte(text: Seq<char>, index: int) -> u8 {
    (hex_value(text[2 * index])->0 * 16 + hex_value(text[2 * index + 1])->0) as u8
}

/// The bytes that the identity of an event is.
pub open spec fn eid_bytes(text: Seq<char>) -> [u8; 16] {
    [
        eid_byte(text, 0),
        eid_byte(text, 1),
        eid_byte(text, 2),
        eid_byte(text, 3),
        eid_byte(text, 4),
        eid_byte(text, 5),
        eid_byte(text, 6),
        eid_byte(text, 7),
        eid_byte(text, 8),
        eid_byte(text, 9),
        eid_byte(text, 10),
        eid_byte(text, 11),
        eid_byte(text, 12),
        eid_byte(text, 13),
        eid_byte(text, 14),
        eid_byte(text, 15),
    ]
}

fn hex_digit(c: char) -> (r: Option<u8>)
    ensures
        r == hex_value(c),
        r matches Some(value) ==> value < 16,
{
    if '0' <= c && c <= '9' {
        Some((c as u32 - 48) as u8)
    } else if 'a' <= c && c <= 'f' {
        Some((c as u32 - 87) as u8)
    } else {
        None
    }
}

fn read_byte(chars: &Vec<char>, index: usize) -> (r: u8)
    requires
        is_eid(chars@),
        index < 16,
    ensures
        r == eid_byte(chars@, index as int),
{
    match (hex_digit(chars[2 * index]), hex_digit(chars[2 * index + 1])) {
        (Some(high), Some(low)) => high * 16 + low,
        _ => 0,
    }
}

/// Reads the identity of an event.
pub fn parse_eid(value: &str) -> (r: Result<[u8; 16], Reason>)
    ensures
        r == if is_eid(value@) {
            Ok::<[u8; 16], Reason>(eid_bytes(value@))
        } else {
            Err(Reason::EidMalformed)
        },
{
    let chars: Vec<char> = chars_of(value);
    if chars.len() != 32 {
        return Err(Reason::EidMalformed);
    }
    let mut index: usize = 0;
    while index < 32
        invariant
            chars@ == value@,
            chars@.len() == 32,
            index <= 32,
            forall|i: int| 0 <= i < index ==> hex_value(#[trigger] value@[i]) is Some,
        decreases 32 - index,
    {
        if hex_digit(chars[index]).is_none() {
            return Err(Reason::EidMalformed);
        }
        index = index + 1;
    }
    let bytes: [u8; 16] = [
        read_byte(&chars, 0),
        read_byte(&chars, 1),
        read_byte(&chars, 2),
        read_byte(&chars, 3),
        read_byte(&chars, 4),
        read_byte(&chars, 5),
        read_byte(&chars, 6),
        read_byte(&chars, 7),
        read_byte(&chars, 8),
        read_byte(&chars, 9),
        read_byte(&chars, 10),
        read_byte(&chars, 11),
        read_byte(&chars, 12),
        read_byte(&chars, 13),
        read_byte(&chars, 14),
        read_byte(&chars, 15),
    ];
    assert(bytes =~= eid_bytes(value@));
    Ok(bytes)
}

/// The constant that a constructor makes.
pub open spec fn constructed(constructor: Constructor) -> Result<Literal, SemanticError> {
    let span = constructor.span;
    match constructor.kind {
        ConstructorKind::Numeric { target, literal } => numeric_constant(target, literal, span),
        ConstructorKind::Datetime(value) => match instant_of(rfc3339_instant(value.value@)) {
            Ok(instant) => Ok(Literal::Datetime(instant)),
            Err(reason) => Err(SemanticError::LiteralInvalid { reason, span }),
        },
        ConstructorKind::Eid(value) => if is_eid(value.value@) {
            Ok(Literal::Eid(eid_bytes(value.value@)))
        } else {
            Err(SemanticError::LiteralInvalid { reason: Reason::EidMalformed, span })
        },
    }
}

/// Makes the constant of a constructor.
pub fn convert_constructor(constructor: &Constructor) -> (r: Result<Literal, SemanticError>)
    ensures
        r == constructed(*constructor),
{
    let span: Span = constructor.span;
    match &constructor.kind {
        ConstructorKind::Numeric { target, literal } => numeric_constructor(
            *target,
            literal,
            span,
        ),
        ConstructorKind::Datetime(value) => match parse_datetime(value.value.as_str()) {
            Ok(instant) => Ok(Literal::Datetime(instant)),
            Err(reason) => Err(SemanticError::LiteralInvalid { reason, span }),
        },
        ConstructorKind::Eid(value) => match parse_eid(value.value.as_str()) {
            Ok(bytes) => Ok(Literal::Eid(bytes)),
            Err(reason) => Err(SemanticError::LiteralInvalid { reason, span }),
        },
    }
}

/// An integer literal that is accepted in a numeric context has the type of the context, and
/// keeps its value if that is an integer type.
pub proof fn contextual_integers_are_exact(
    magnitude: u64,
    sign: NumericSign,
    expected: LogicalType,
    span: Span,
    constructor: bool,
)
    requires
        is_numeric(expected),
    ensures
        contextual_integer(magnitude, sign, Some(expected), span, constructor) matches Ok(literal)
            ==> {
            let number = if sign == NumericSign::Negative {
                -(magnitude as int)
            } else {
                magnitude as int
            };
            &&& literal.ty() == expected
            &&& match literal {
                Literal::Int32(value) => value == number,
                Literal::Int64(value) => value == number,
                Literal::UInt32(value) => value == number,
                Literal::UInt64(value) => value == number,
                _ => true,
            }
        },
{
}

/// The character of each hexadecimal digit stands at its value in the list of them, and each byte of
/// an identity is that of two digits, the first of which counts sixteen times.
pub proof fn identities_are_read_digit_by_digit(text: Seq<char>, index: int, c: char, value: int)
    requires
        is_eid(text),
        0 <= index < 16,
        0 <= value < 16,
    ensures
        text.len() == 32,
        hex_value(c) == Some(value as u8) <==> c == "0123456789abcdef"@[value],
        eid_bytes(text)[index] == 16 * hex_value(text[2 * index])->0 + hex_value(
            text[2 * index + 1],
        )->0,
{
    reveal_strlit("0123456789abcdef");
    let first = text[2 * index];
    let second = text[2 * index + 1];
    assert(hex_value(first) is Some && hex_value(second) is Some);
    assert(eid_bytes(text)[index] == eid_byte(text, index));
}

/// Whether a number is a significand below a limit times a power of two.
pub open spec fn has_significand(number: nat, limit: nat, significand: nat, exponent: nat) -> bool {
    significand < limit && number == significand * pow2(exponent)
}

/// A whole number is exact in a precision exactly if it is a significand of that precision times a
/// power of two.
pub proof fn exact_numbers_have_a_significand(
    number: nat,
    limit: nat,
    significand: nat,
    exponent: nat,
)
    requires
        limit > 0,
    ensures
        has_significand(number, limit, significand, exponent) ==> is_exact(number, limit),
        is_exact(number, limit) ==> exists|m: nat, e: nat| #[trigger]
            has_significand(number, limit, m, e),
{
    if has_significand(number, limit, significand, exponent) {
        lemma_scaled(limit, significand, exponent);
    }
    if is_exact(number, limit) {
        lemma_significand(number, limit);
    }
}

proof fn lemma_scaled(limit: nat, significand: nat, exponent: nat)
    requires
        significand < limit,
    ensures
        is_exact(significand * pow2(exponent), limit),
    decreases exponent,
{
    if exponent == 0 {
        lemma2_to64();
        assert(significand * pow2(0) == significand);
    } else {
        let less = (exponent - 1) as nat;
        lemma_scaled(limit, significand, less);
        lemma_pow2_unfold(exponent);
        let half = significand * pow2(less);
        let whole = significand * pow2(exponent);
        assert(whole == 2 * half) by (nonlinear_arith)
            requires
                pow2(exponent) == 2 * pow2(less),
                half == significand * pow2(less),
                whole == significand * pow2(exponent),
        ;
        assert(whole % 2 == 0);
        assert(whole / 2 == half);
    }
}

proof fn lemma_significand(number: nat, limit: nat)
    requires
        limit > 0,
        is_exact(number, limit),
    ensures
        exists|m: nat, e: nat| #[trigger] has_significand(number, limit, m, e),
    decreases number,
{
    lemma2_to64();
    if number < limit {
        assert(has_significand(number, limit, number, 0));
    } else {
        lemma_significand(number / 2, limit);
        let (m, e) = choose|m: nat, e: nat| #[trigger] has_significand(number / 2, limit, m, e);
        lemma_pow2_unfold(e + 1);
        let half = m * pow2(e);
        assert(m * pow2(e + 1) == 2 * half) by (nonlinear_arith)
            requires
                pow2(e + 1) == 2 * pow2(e),
                half == m * pow2(e),
        ;
        assert(has_significand(number, limit, m, e + 1));
    }
}

/// A floating-point constant keeps the sign and the numeral that were written, and is accepted
/// exactly if its numeral is finite in its precision. Behind a constructor a whole number is
/// accepted too, and rounded.
pub proof fn floats_keep_their_numeral(
    target: NumericType,
    literal: SignedNumericLiteral,
    span: Span,
)
    requires
        target is Float32 || target is Float64,
    ensures
        numeric_constant(target, literal, span) is Ok <==> match literal.kind {
            NumericLiteralKind::Integer(_) => true,
            NumericLiteralKind::FloatingPoint(text) => decimal_below(
                encode_utf8(text@),
                if target is Float32 {
                    FLOAT32_LIMIT@
                } else {
                    FLOAT64_LIMIT@
                },
            ),
        },
        numeric_constant(target, literal, span) matches Ok(made) ==> {
            let constant = match made {
                Literal::Float32(constant) => Some(constant),
                Literal::Float64(constant) => Some(constant),
                _ => None,
            };
            &&& made is Float32 <==> target is Float32
            &&& constant matches Some(constant)
            &&& constant.negative <==> literal.sign is Negative
            &&& constant.single <==> target is Float32
            &&& match literal.kind {
                NumericLiteralKind::Integer(number) => constant.magnitude
                    == FloatMagnitude::Integer(number),
                NumericLiteralKind::FloatingPoint(text) => constant.magnitude
                    == FloatMagnitude::Decimal(text),
            }
        },
{
}

/// A constant is what was written: a flag or a text is itself, a date-time is the whole millisecond
/// that it denotes, and the identity of an event is its bytes. A null has the type that is expected,
/// and is refused where none is.
pub proof fn constants_are_what_was_written(
    kind: LiteralKind,
    expected: Option<LogicalType>,
    constructor: Constructor,
    span: Span,
)
    ensures
        match kind {
            LiteralKind::Null => match contextual_literal(kind, expected, span) {
                Ok(made) => expected is Some && made == Literal::Null(expected->0),
                Err(_) => expected is None,
            },
            LiteralKind::Boolean(flag) => contextual_literal(kind, expected, span) == Ok::<
                Literal,
                SemanticError,
            >(Literal::Boolean(flag)),
            LiteralKind::String(text) => contextual_literal(kind, expected, span) == Ok::<
                Literal,
                SemanticError,
            >(Literal::Utf8(text)),
            LiteralKind::FloatingPoint(text) => match contextual_literal(kind, expected, span) {
                Ok(Literal::Float64(constant)) => !constant.negative && !constant.single
                    && constant.magnitude == FloatMagnitude::Decimal(text) && decimal_below(
                    encode_utf8(text@),
                    FLOAT64_LIMIT@,
                ),
                Ok(_) => false,
                Err(_) => !decimal_below(encode_utf8(text@), FLOAT64_LIMIT@),
            },
            LiteralKind::Integer(_) => true,
        },
        match constructor.kind {
            ConstructorKind::Datetime(text) => match constructed(constructor) {
                Ok(Literal::Datetime(instant)) => match rfc3339_instant(text.value@) {
                    Some((milliseconds, nanosecond)) => instant.0 == milliseconds && nanosecond
                        % 1_000_000 == 0,
                    None => false,
                },
                Ok(_) => false,
                Err(_) => match rfc3339_instant(text.value@) {
                    Some((_, nanosecond)) => nanosecond % 1_000_000 != 0,
                    None => true,
                },
            },
            ConstructorKind::Eid(text) => match constructed(constructor) {
                Ok(Literal::Eid(bytes)) => is_eid(text.value@) && bytes == eid_bytes(text.value@),
                Ok(_) => false,
                Err(_) => !is_eid(text.value@),
            },
            ConstructorKind::Numeric { .. } => true,
        },
{
}

} // verus!
