//! Evaluation of constant expressions.

use vstd::prelude::*;

use crate::catalog::LogicalType;
use crate::language::error::Reason;
use crate::language::floats::{
    lemma_order_stays_known, lemma_result_stays_known, order_known, result_known, FloatFacts,
    FloatNumeral, FloatOrder, FloatQuestion,
};
use crate::language::ir::{
    BinaryOperator, FloatConstant, FloatMagnitude, Literal, UnaryOperator,
};
use crate::text::{text_before, text_precedes};

verus! {

/// A floating-point number with the other sign.
pub open spec fn negated(constant: FloatConstant) -> FloatConstant {
    FloatConstant { negative: !constant.negative, ..constant }
}

fn copy_float(constant: &FloatConstant) -> (r: FloatConstant)
    ensures
        r == *constant,
{
    FloatConstant {
        negative: constant.negative,
        magnitude: match &constant.magnitude {
            FloatMagnitude::Integer(value) => FloatMagnitude::Integer(*value),
            FloatMagnitude::Decimal(text) => FloatMagnitude::Decimal(text.clone()),
        },
        single: constant.single,
    }
}

fn negate(constant: &FloatConstant) -> (r: FloatConstant)
    ensures
        r == negated(*constant),
{
    let mut copied: FloatConstant = copy_float(constant);
    copied.negative = !constant.negative;
    copied
}

/// What an operator makes of a constant, if it can be evaluated, or why it cannot.
pub open spec fn unary_folded(operator: UnaryOperator, literal: Literal) -> Result<
    Option<Literal>,
    Reason,
> {
    match (operator, literal) {
        (_, Literal::Null(logical_type)) => Ok(Some(Literal::Null(logical_type))),
        (UnaryOperator::Not, Literal::Boolean(value)) => Ok(Some(Literal::Boolean(!value))),
        (UnaryOperator::Negate, Literal::Int32(value)) => if value == i32::MIN {
            Err(Reason::NegationOverflowed)
        } else {
            Ok(Some(Literal::Int32((-value) as i32)))
        },
        (UnaryOperator::Negate, Literal::Int64(value)) => if value == i64::MIN {
            Err(Reason::NegationOverflowed)
        } else {
            Ok(Some(Literal::Int64((-value) as i64)))
        },
        (UnaryOperator::Negate, Literal::Float32(value)) => Ok(
            Some(Literal::Float32(negated(value))),
        ),
        (UnaryOperator::Negate, Literal::Float64(value)) => Ok(
            Some(Literal::Float64(negated(value))),
        ),
        _ => Ok(None),
    }
}

/// Applies an operator to a constant.
pub fn fold_unary(operator: UnaryOperator, literal: &Literal) -> (r: Result<
    Option<Literal>,
    Reason,
>)
    ensures
        r == unary_folded(operator, *literal),
{
    match literal {
        Literal::Null(logical_type) => Ok(Some(Literal::Null(*logical_type))),
        Literal::Boolean(value) => match operator {
            UnaryOperator::Not => Ok(Some(Literal::Boolean(!*value))),
            UnaryOperator::Negate => Ok(None),
        },
        Literal::Int32(value) => match operator {
            UnaryOperator::Not => Ok(None),
            UnaryOperator::Negate => if *value == i32::MIN {
                Err(Reason::NegationOverflowed)
            } else {
                Ok(Some(Literal::Int32(-*value)))
            },
        },
        Literal::Int64(value) => match operator {
            UnaryOperator::Not => Ok(None),
            UnaryOperator::Negate => if *value == i64::MIN {
                Err(Reason::NegationOverflowed)
            } else {
                Ok(Some(Literal::Int64(-*value)))
            },
        },
        Literal::Float32(value) => match operator {
            UnaryOperator::Not => Ok(None),
            UnaryOperator::Negate => Ok(Some(Literal::Float32(negate(value)))),
        },
        Literal::Float64(value) => match operator {
            UnaryOperator::Not => Ok(None),
            UnaryOperator::Negate => Ok(Some(Literal::Float64(negate(value)))),
        },
        _ => Ok(None),
    }
}

/// What a comparison says of two numbers.
pub open spec fn compared(operator: BinaryOperator, left: int, right: int) -> Option<bool> {
    match operator {
        BinaryOperator::Equal => Some(left == right),
        BinaryOperator::NotEqual => Some(left != right),
        BinaryOperator::GreaterThan => Some(left > right),
        BinaryOperator::GreaterThanOrEqual => Some(left >= right),
        BinaryOperator::LessThan => Some(left < right),
        BinaryOperator::LessThanOrEqual => Some(left <= right),
        _ => None,
    }
}

/// The quotient of two numbers, rounded toward zero.
pub open spec fn quotient(left: int, right: int) -> int {
    if left >= 0 && right > 0 {
        left / right
    } else if left < 0 && right < 0 {
        (-left) / (-right)
    } else if left < 0 {
        -((-left) / right)
    } else {
        -(left / (-right))
    }
}

/// What arithmetic makes of two numbers.
pub open spec fn computed(operator: BinaryOperator, left: int, right: int) -> Option<int> {
    match operator {
        BinaryOperator::Add => Some(left + right),
        BinaryOperator::Subtract => Some(left - right),
        BinaryOperator::Multiply => Some(left * right),
        BinaryOperator::Divide => if right == 0 {
            None
        } else {
            Some(quotient(left, right))
        },
        _ => None,
    }
}

/// The constant of an integer type that is a number, if the type holds it.
pub open spec fn integer_constant(number: int, logical_type: LogicalType) -> Option<Literal> {
    match logical_type {
        LogicalType::Int32 => if i32::MIN <= number <= i32::MAX {
            Some(Literal::Int32(number as i32))
        } else {
            None
        },
        LogicalType::Int64 => if i64::MIN <= number <= i64::MAX {
            Some(Literal::Int64(number as i64))
        } else {
            None
        },
        LogicalType::UInt32 => if 0 <= number <= u32::MAX {
            Some(Literal::UInt32(number as u32))
        } else {
            None
        },
        LogicalType::UInt64 => if 0 <= number <= u64::MAX {
            Some(Literal::UInt64(number as u64))
        } else {
            None
        },
        _ => None,
    }
}

/// What an operator makes of two integers of one type.
pub open spec fn integers_folded(
    operator: BinaryOperator,
    left: int,
    right: int,
    logical_type: LogicalType,
) -> Result<Option<Literal>, Reason> {
    match compared(operator, left, right) {
        Some(value) => Ok(Some(Literal::Boolean(value))),
        None => if operator is And || operator is Or {
            Ok(None)
        } else {
            match computed(operator, left, right) {
                None => Err(Reason::IntegerOverflowed),
                Some(number) => match integer_constant(number, logical_type) {
                    Some(literal) => Ok(Some(literal)),
                    None => Err(Reason::IntegerOverflowed),
                },
            }
        },
    }
}

fn fold_i32(operator: BinaryOperator, left: i32, right: i32) -> (r: Result<
    Option<Literal>,
    Reason,
>)
    ensures
        r == integers_folded(operator, left as int, right as int, LogicalType::Int32),
{
    let value: Option<i32> = match operator {
        BinaryOperator::Add => left.checked_add(right),
        BinaryOperator::Subtract => left.checked_sub(right),
        BinaryOperator::Multiply => left.checked_mul(right),
        BinaryOperator::Divide => left.checked_div(right),
        BinaryOperator::Equal => {
            return Ok(Some(Literal::Boolean(left == right)));
        },
        BinaryOperator::NotEqual => {
            return Ok(Some(Literal::Boolean(left != right)));
        },
        BinaryOperator::GreaterThan => {
            return Ok(Some(Literal::Boolean(left > right)));
        },
        BinaryOperator::GreaterThanOrEqual => {
            return Ok(Some(Literal::Boolean(left >= right)));
        },
        BinaryOperator::LessThan => {
            return Ok(Some(Literal::Boolean(left < right)));
        },
        BinaryOperator::LessThanOrEqual => {
            return Ok(Some(Literal::Boolean(left <= right)));
        },
        BinaryOperator::And | BinaryOperator::Or => {
            return Ok(None);
        },
    };
    match value {
        Some(value) => Ok(Some(Literal::Int32(value))),
        None => Err(Reason::IntegerOverflowed),
    }
}

fn fold_i64(operator: BinaryOperator, left: i64, right: i64) -> (r: Result<
    Option<Literal>,
    Reason,
>)
    ensures
        r == integers_folded(operator, left as int, right as int, LogicalType::Int64),
{
    let value: Option<i64> = match operator {
        BinaryOperator::Add => left.checked_add(right),
        BinaryOperator::Subtract => left.checked_sub(right),
        BinaryOperator::Multiply => left.checked_mul(right),
        BinaryOperator::Divide => left.checked_div(right),
        BinaryOperator::Equal => {
            return Ok(Some(Literal::Boolean(left == right)));
        },
        BinaryOperator::NotEqual => {
            return Ok(Some(Literal::Boolean(left != right)));
        },
        BinaryOperator::GreaterThan => {
            return Ok(Some(Literal::Boolean(left > right)));
        },
        BinaryOperator::GreaterThanOrEqual => {
            return Ok(Some(Literal::Boolean(left >= right)));
        },
        BinaryOperator::LessThan => {
            return Ok(Some(Literal::Boolean(left < right)));
        },
        BinaryOperator::LessThanOrEqual => {
            return Ok(Some(Literal::Boolean(left <= right)));
        },
        BinaryOperator::And | BinaryOperator::Or => {
            return Ok(None);
        },
    };
    match value {
        Some(value) => Ok(Some(Literal::Int64(value))),
        None => Err(Reason::IntegerOverflowed),
    }
}

fn fold_u32(operator: BinaryOperator, left: u32, right: u32) -> (r: Result<
    Option<Literal>,
    Reason,
>)
    ensures
        r == integers_folded(operator, left as int, right as int, LogicalType::UInt32),
{
    let value: Option<u32> = match operator {
        BinaryOperator::Add => left.checked_add(right),
        BinaryOperator::Subtract => left.checked_sub(right),
        BinaryOperator::Multiply => left.checked_mul(right),
        BinaryOperator::Divide => left.checked_div(right),
        BinaryOperator::Equal => {
            return Ok(Some(Literal::Boolean(left == right)));
        },
        BinaryOperator::NotEqual => {
            return Ok(Some(Literal::Boolean(left != right)));
        },
        BinaryOperator::GreaterThan => {
            return Ok(Some(Literal::Boolean(left > right)));
        },
        BinaryOperator::GreaterThanOrEqual => {
            return Ok(Some(Literal::Boolean(left >= right)));
        },
        BinaryOperator::LessThan => {
            return Ok(Some(Literal::Boolean(left < right)));
        },
        BinaryOperator::LessThanOrEqual => {
            return Ok(Some(Literal::Boolean(left <= right)));
        },
        BinaryOperator::And | BinaryOperator::Or => {
            return Ok(None);
        },
    };
    match value {
        Some(value) => Ok(Some(Literal::UInt32(value))),
        None => Err(Reason::IntegerOverflowed),
    }
}

fn fold_u64(operator: BinaryOperator, left: u64, right: u64) -> (r: Result<
    Option<Literal>,
    Reason,
>)
    ensures
        r == integers_folded(operator, left as int, right as int, LogicalType::UInt64),
{
    let value: Option<u64> = match operator {
        BinaryOperator::Add => left.checked_add(right),
        BinaryOperator::Subtract => left.checked_sub(right),
        BinaryOperator::Multiply => left.checked_mul(right),
        BinaryOperator::Divide => left.checked_div(right),
        BinaryOperator::Equal => {
            return Ok(Some(Literal::Boolean(left == right)));
        },
        BinaryOperator::NotEqual => {
            return Ok(Some(Literal::Boolean(left != right)));
        },
        BinaryOperator::GreaterThan => {
            return Ok(Some(Literal::Boolean(left > right)));
        },
        BinaryOperator::GreaterThanOrEqual => {
            return Ok(Some(Literal::Boolean(left >= right)));
        },
        BinaryOperator::LessThan => {
            return Ok(Some(Literal::Boolean(left < right)));
        },
        BinaryOperator::LessThanOrEqual => {
            return Ok(Some(Literal::Boolean(left <= right)));
        },
        BinaryOperator::And | BinaryOperator::Or => {
            return Ok(None);
        },
    };
    match value {
        Some(value) => Ok(Some(Literal::UInt64(value))),
        None => Err(Reason::IntegerOverflowed),
    }
}

/// Which of two values comes first: a negative number if the left does, a positive one if the
/// right does.
pub open spec fn text_rank(left: Seq<char>, right: Seq<char>) -> int {
    if text_precedes(left, right, 0) {
        -1
    } else if text_precedes(right, left, 0) {
        1
    } else {
        0
    }
}

/// Whether, from `at` on, some bytes come before others.
pub open spec fn bytes_precede(left: Seq<u8>, right: Seq<u8>, at: int) -> bool
    decreases left.len() - at,
{
    if !(0 <= at < right.len()) {
        false
    } else if at >= left.len() {
        true
    } else if left[at] != right[at] {
        left[at] < right[at]
    } else {
        bytes_precede(left, right, at + 1)
    }
}

/// Which of two identities comes first, as for texts.
pub open spec fn bytes_rank(left: Seq<u8>, right: Seq<u8>) -> int {
    if bytes_precede(left, right, 0) {
        -1
    } else if bytes_precede(right, left, 0) {
        1
    } else {
        0
    }
}

fn bytes_before(left: &[u8; 16], right: &[u8; 16]) -> (r: bool)
    ensures
        r == bytes_precede(left@, right@, 0),
{
    let mut at: usize = 0;
    while at < 16
        invariant
            at <= 16,
            left@.len() == 16,
            right@.len() == 16,
            bytes_precede(left@, right@, 0) == bytes_precede(left@, right@, at as int),
        decreases 16 - at,
    {
        if left[at] != right[at] {
            return left[at] < right[at];
        }
        at = at + 1;
    }
    false
}

/// The constant that a comparison of two values in an order is.
pub open spec fn order_folded(operator: BinaryOperator, rank: int) -> Option<Literal> {
    match compared(operator, rank, 0) {
        Some(value) => Some(Literal::Boolean(value)),
        None => None,
    }
}

fn fold_ordered(operator: BinaryOperator, rank: i8) -> (r: Option<Literal>)
    ensures
        r == order_folded(operator, rank as int),
{
    let value: bool = match operator {
        BinaryOperator::Equal => rank == 0,
        BinaryOperator::NotEqual => rank != 0,
        BinaryOperator::GreaterThan => rank > 0,
        BinaryOperator::GreaterThanOrEqual => rank >= 0,
        BinaryOperator::LessThan => rank < 0,
        BinaryOperator::LessThanOrEqual => rank <= 0,
        _ => {
            return None;
        },
    };
    Some(Literal::Boolean(value))
}

/// The truth value of a constant, unknown if it is a null of that type.
pub open spec fn truth_of(literal: Literal) -> Option<Option<bool>> {
    match literal {
        Literal::Boolean(value) => Some(Some(value)),
        Literal::Null(LogicalType::Bool) => Some(None),
        _ => None,
    }
}

fn boolean_value(literal: &Literal) -> (r: Option<Option<bool>>)
    ensures
        r == truth_of(*literal),
{
    match literal {
        Literal::Boolean(value) => Some(Some(*value)),
        Literal::Null(LogicalType::Bool) => Some(None),
        _ => None,
    }
}

/// Conjunction and disjunction of truth values that may be unknown.
pub open spec fn three_valued(
    operator: BinaryOperator,
    left: Option<bool>,
    right: Option<bool>,
) -> Option<bool> {
    // The value that decides whatever the other one is.
    let deciding = operator is Or;
    if left == Some(deciding) || right == Some(deciding) {
        Some(deciding)
    } else if left is None || right is None {
        None
    } else {
        Some(!deciding)
    }
}

fn fold_three_valued(operator: BinaryOperator, left: Option<bool>, right: Option<bool>) -> (r:
    Literal)
    requires
        operator is And || operator is Or,
    ensures
        r == match three_valued(operator, left, right) {
            Some(value) => Literal::Boolean(value),
            None => Literal::Null(LogicalType::Bool),
        },
{
    let deciding: bool = matches!(operator, BinaryOperator::Or);
    match (left, right) {
        (Some(left), Some(right)) => if left == deciding || right == deciding {
            Literal::Boolean(deciding)
        } else {
            Literal::Boolean(!deciding)
        },
        (Some(value), None) | (None, Some(value)) => if value == deciding {
            Literal::Boolean(deciding)
        } else {
            Literal::Null(LogicalType::Bool)
        },
        (None, None) => Literal::Null(LogicalType::Bool),
    }
}

/// Why two constants have no value under an operator, or what must be known to tell.
#[derive(Debug, PartialEq, Eq)]
pub enum FoldFault {
    Failed(Reason),
    Unknown(FloatQuestion),
}

/// A fold of constants whose value needs no floating-point arithmetic.
pub open spec fn decided(folded: Result<Option<Literal>, Reason>) -> Result<
    Option<Literal>,
    FoldFault,
> {
    match folded {
        Ok(literal) => Ok(literal),
        Err(reason) => Err(FoldFault::Failed(reason)),
    }
}

fn decide(folded: Result<Option<Literal>, Reason>) -> (r: Result<Option<Literal>, FoldFault>)
    ensures
        r == decided(folded),
{
    match folded {
        Ok(literal) => Ok(literal),
        Err(reason) => Err(FoldFault::Failed(reason)),
    }
}

/// The floating-point number zero.
pub open spec fn float_zero() -> FloatConstant {
    FloatConstant { negative: false, magnitude: FloatMagnitude::Integer(0), single: false }
}

/// A comparison as a number: negative, zero or positive.
pub open spec fn order_rank(order: FloatOrder) -> int {
    match order {
        FloatOrder::Less => -1,
        FloatOrder::Equal => 0,
        FloatOrder::Greater => 1,
    }
}

/// A floating-point number as a constant.
pub open spec fn float_constant(negative: bool, text: String, single: bool) -> Literal {
    let constant = FloatConstant { negative, magnitude: FloatMagnitude::Decimal(text), single };
    if single {
        Literal::Float32(constant)
    } else {
        Literal::Float64(constant)
    }
}

/// What an operator of arithmetic makes of two floating-point numbers.
pub open spec fn floats_computed(
    operator: BinaryOperator,
    left: FloatConstant,
    right: FloatConstant,
    single: bool,
    facts: FloatFacts,
) -> Result<Option<Literal>, FoldFault> {
    match result_known(facts.computations@, operator, left, right, single, 0) {
        None => Err(
            FoldFault::Unknown(FloatQuestion::Compute { operator, left, right, single }),
        ),
        Some(None) => Err(FoldFault::Failed(Reason::FloatResultNotFinite)),
        Some(Some(numeral)) => Ok(
            Some(float_constant(numeral.negative, numeral.text, single)),
        ),
    }
}

/// What an operator makes of two floating-point numbers, by what is known of them.
pub open spec fn floats_folded(
    operator: BinaryOperator,
    left: FloatConstant,
    right: FloatConstant,
    single: bool,
    facts: FloatFacts,
) -> Result<Option<Literal>, FoldFault> {
    match operator {
        BinaryOperator::And | BinaryOperator::Or => Ok(None),
        BinaryOperator::Add | BinaryOperator::Subtract
        | BinaryOperator::Multiply => floats_computed(operator, left, right, single, facts),
        BinaryOperator::Divide => match order_known(
            facts.comparisons@,
            right,
            float_zero(),
            0,
        ) {
            None => Err(
                FoldFault::Unknown(FloatQuestion::Compare { left: right, right: float_zero() }),
            ),
            Some(FloatOrder::Equal) => Err(FoldFault::Failed(Reason::FloatDividedByZero)),
            Some(_) => floats_computed(operator, left, right, single, facts),
        },
        _ => match order_known(facts.comparisons@, left, right, 0) {
            None => Err(FoldFault::Unknown(FloatQuestion::Compare { left, right })),
            Some(order) => Ok(order_folded(operator, order_rank(order))),
        },
    }
}

fn compute_floats(
    operator: BinaryOperator,
    left: &FloatConstant,
    right: &FloatConstant,
    single: bool,
    facts: &FloatFacts,
) -> (r: Result<Option<Literal>, FoldFault>)
    ensures
        r == floats_computed(operator, *left, *right, single, *facts),
{
    let known: Option<&Option<FloatNumeral>> = facts.result(operator, left, right, single);
    match known {
        None => Err(
            FoldFault::Unknown(
                FloatQuestion::Compute {
                    operator,
                    left: copy_float(left),
                    right: copy_float(right),
                    single,
                },
            ),
        ),
        Some(None) => Err(FoldFault::Failed(Reason::FloatResultNotFinite)),
        Some(Some(numeral)) => {
            let constant: FloatConstant = FloatConstant {
                negative: numeral.negative,
                magnitude: FloatMagnitude::Decimal(numeral.text.clone()),
                single,
            };
            if single {
                Ok(Some(Literal::Float32(constant)))
            } else {
                Ok(Some(Literal::Float64(constant)))
            }
        },
    }
}

/// Applies an operator to two floating-point numbers, by what is known of them.
fn fold_floats(
    operator: BinaryOperator,
    left: &FloatConstant,
    right: &FloatConstant,
    single: bool,
    facts: &FloatFacts,
) -> (r: Result<Option<Literal>, FoldFault>)
    ensures
        r == floats_folded(operator, *left, *right, single, *facts),
{
    match operator {
        BinaryOperator::And | BinaryOperator::Or => Ok(None),
        BinaryOperator::Add | BinaryOperator::Subtract
        | BinaryOperator::Multiply => compute_floats(operator, left, right, single, facts),
        BinaryOperator::Divide => {
            let zero: FloatConstant = FloatConstant {
                negative: false,
                magnitude: FloatMagnitude::Integer(0),
                single: false,
            };
            match facts.order(right, &zero) {
                None => Err(
                    FoldFault::Unknown(
                        FloatQuestion::Compare { left: copy_float(right), right: zero },
                    ),
                ),
                Some(FloatOrder::Equal) => Err(FoldFault::Failed(Reason::FloatDividedByZero)),
                Some(_) => compute_floats(operator, left, right, single, facts),
            }
        },
        _ => match facts.order(left, right) {
            None => Err(
                FoldFault::Unknown(
                    FloatQuestion::Compare { left: copy_float(left), right: copy_float(right) },
                ),
            ),
            Some(order) => {
                let rank: i8 = match order {
                    FloatOrder::Less => -1,
                    FloatOrder::Equal => 0,
                    FloatOrder::Greater => 1,
                };
                Ok(fold_ordered(operator, rank))
            },
        },
    }
}

/// What an operator makes of two constants, if it can be evaluated, or why it cannot. Of
/// floating-point numbers it goes by what is known of them.
pub open spec fn binary_folded(
    operator: BinaryOperator,
    left: Literal,
    right: Literal,
    logical_type: LogicalType,
    facts: FloatFacts,
) -> Result<Option<Literal>, FoldFault> {
    let logical = operator is And || operator is Or;
    if logical && truth_of(left) is Some && truth_of(right) is Some {
        Ok(
            Some(
                match three_valued(operator, truth_of(left)->0, truth_of(right)->0) {
                    Some(value) => Literal::Boolean(value),
                    None => Literal::Null(LogicalType::Bool),
                },
            ),
        )
    } else if left is Null || right is Null {
        Ok(Some(Literal::Null(logical_type)))
    } else {
        match (left, right) {
            (Literal::Int32(left), Literal::Int32(right)) => decided(
                integers_folded(operator, left as int, right as int, LogicalType::Int32),
            ),
            (Literal::Int64(left), Literal::Int64(right)) => decided(
                integers_folded(operator, left as int, right as int, LogicalType::Int64),
            ),
            (Literal::UInt32(left), Literal::UInt32(right)) => decided(
                integers_folded(operator, left as int, right as int, LogicalType::UInt32),
            ),
            (Literal::UInt64(left), Literal::UInt64(right)) => decided(
                integers_folded(operator, left as int, right as int, LogicalType::UInt64),
            ),
            (Literal::Float32(left), Literal::Float32(right)) => floats_folded(
                operator,
                left,
                right,
                true,
                facts,
            ),
            (Literal::Float64(left), Literal::Float64(right)) => floats_folded(
                operator,
                left,
                right,
                false,
                facts,
            ),
            (Literal::Boolean(left), Literal::Boolean(right)) => match operator {
                BinaryOperator::Equal => Ok(Some(Literal::Boolean(left == right))),
                BinaryOperator::NotEqual => Ok(Some(Literal::Boolean(left != right))),
                _ => Ok(None),
            },
            (Literal::Utf8(left), Literal::Utf8(right)) => Ok(
                order_folded(operator, text_rank(left@, right@)),
            ),
            (Literal::Datetime(left), Literal::Datetime(right)) => Ok(
                order_folded(operator, left.0 - right.0),
            ),
            (Literal::Eid(left), Literal::Eid(right)) => Ok(
                order_folded(operator, bytes_rank(left@, right@)),
            ),
            _ => Ok(None),
        }
    }
}

/// Applies an operator to two constants.
pub fn fold_binary(
    operator: BinaryOperator,
    left: &Literal,
    right: &Literal,
    logical_type: LogicalType,
    facts: &FloatFacts,
) -> (r: Result<Option<Literal>, FoldFault>)
    ensures
        r == binary_folded(operator, *left, *right, logical_type, *facts),
{
    if matches!(operator, BinaryOperator::And | BinaryOperator::Or) {
        if let (Some(left), Some(right)) = (boolean_value(left), boolean_value(right)) {
            return Ok(Some(fold_three_valued(operator, left, right)));
        }
    }
    if matches!(left, Literal::Null(_)) || matches!(right, Literal::Null(_)) {
        return Ok(Some(Literal::Null(logical_type)));
    }
    match (left, right) {
        (Literal::Int32(left), Literal::Int32(right)) => decide(
            fold_i32(operator, *left, *right),
        ),
        (Literal::Int64(left), Literal::Int64(right)) => decide(
            fold_i64(operator, *left, *right),
        ),
        (Literal::UInt32(left), Literal::UInt32(right)) => decide(
            fold_u32(operator, *left, *right),
        ),
        (Literal::UInt64(left), Literal::UInt64(right)) => decide(
            fold_u64(operator, *left, *right),
        ),
        (Literal::Float32(left), Literal::Float32(right)) => fold_floats(
            operator,
            left,
            right,
            true,
            facts,
        ),
        (Literal::Float64(left), Literal::Float64(right)) => fold_floats(
            operator,
            left,
            right,
            false,
            facts,
        ),
        (Literal::Boolean(left), Literal::Boolean(right)) => match operator {
            BinaryOperator::Equal => Ok(Some(Literal::Boolean(*left == *right))),
            BinaryOperator::NotEqual => Ok(Some(Literal::Boolean(*left != *right))),
            _ => Ok(None),
        },
        (Literal::Utf8(left), Literal::Utf8(right)) => {
            let rank: i8 = if text_before(left.as_str(), right.as_str()) {
                -1
            } else if text_before(right.as_str(), left.as_str()) {
                1
            } else {
                0
            };
            Ok(fold_ordered(operator, rank))
        },
        (Literal::Datetime(left), Literal::Datetime(right)) => {
            let rank: i8 = if left.0 < right.0 {
                -1
            } else if left.0 > right.0 {
                1
            } else {
                0
            };
            Ok(fold_ordered(operator, rank))
        },
        (Literal::Eid(left), Literal::Eid(right)) => {
            let rank: i8 = if bytes_before(left, right) {
                -1
            } else if bytes_before(right, left) {
                1
            } else {
                0
            };
            Ok(fold_ordered(operator, rank))
        },
        _ => Ok(None),
    }
}

/// A constant that an operator is evaluated to has the type that the operator gives, if the
/// operands have the type that it takes.
pub proof fn folding_keeps_types(
    operator: BinaryOperator,
    left: Literal,
    right: Literal,
    logical_type: LogicalType,
    facts: FloatFacts,
)
    requires
        left.ty() == right.ty(),
        logical_type == match operator {
            BinaryOperator::Add | BinaryOperator::Subtract | BinaryOperator::Multiply
            | BinaryOperator::Divide => left.ty(),
            _ => LogicalType::Bool,
        },
    ensures
        binary_folded(operator, left, right, logical_type, facts) matches Ok(Some(literal))
            ==> literal.ty() == logical_type,
{
}

/// A fold asks only for what is not known, and what it has decided stays when more is known.
pub proof fn folding_asks_only_for_unknowns(
    operator: BinaryOperator,
    left: Literal,
    right: Literal,
    logical_type: LogicalType,
    facts: FloatFacts,
    more: FloatFacts,
)
    requires
        more.extend(facts),
    ensures
        match binary_folded(operator, left, right, logical_type, facts) {
            Err(FoldFault::Unknown(question)) => !facts.answer(question),
            folded => binary_folded(operator, left, right, logical_type, more) == folded,
        },
{
    let floats = match (left, right) {
        (Literal::Float32(left), Literal::Float32(right)) => Some((left, right, true)),
        (Literal::Float64(left), Literal::Float64(right)) => Some((left, right, false)),
        _ => None,
    };
    if let Some((left, right, single)) = floats {
        if order_known(facts.comparisons@, left, right, 0) is Some {
            lemma_order_stays_known(facts.comparisons@, more.comparisons@, left, right, 0);
        }
        if order_known(facts.comparisons@, right, float_zero(), 0) is Some {
            lemma_order_stays_known(
                facts.comparisons@,
                more.comparisons@,
                right,
                float_zero(),
                0,
            );
        }
        if result_known(facts.computations@, operator, left, right, single, 0) is Some {
            lemma_result_stays_known(
                facts.computations@,
                more.computations@,
                operator,
                left,
                right,
                single,
                0,
            );
        }
    }
}

} // verus!
