//! What typed expressions mean: how they stand to the expressions that they were made of, and which
//! values constants have.

use vstd::prelude::*;

use crate::catalog::{LogicalType, Nullability};
use crate::language::ast;
use crate::language::ast::{
    ConstructorKind, FieldReference, LiteralKind, NumericLiteralKind, NumericSign,
};
use crate::language::error::{DiagnosticView, SemanticError};
use crate::language::expression::{
    cast_context, coerced, common_type, common_types_are_lossless, is_contextual, is_null,
    negated_integer, pair_order, pipeline_operator, reference_warnings, tested_for_null, typed,
    typed_binary, typed_cast, typed_field, typed_null_predicate, typed_unary, unary_context,
    warnings_of, widened, widens, PairOrder, REMAINDER_FIELD_NAME,
};
use crate::language::floats::FloatFacts;
use crate::language::fold::{binary_folded, folding_keeps_types, FoldFault};
use crate::language::grammar::{
    expression_at, joined_from, level_at, operator_of, primary_at, span_of, unary_at, Lexeme,
};
use crate::language::ir::{
    field_named, BinaryOperator, CastKind, Expression, ExpressionKind, Field, FloatMagnitude,
    Literal, NullPredicate, RemainderFunction, UnaryOperator,
};
use crate::language::lexer::Token;
use crate::language::literal::contextual_integer;
use crate::language::span::Span;
use crate::language::writing::operator_token;
use crate::text::text_precedes;

verus! {

/// The sign or word that stands for an operator of a pipeline.
pub open spec fn pipeline_token(operator: BinaryOperator) -> Token {
    match operator {
        BinaryOperator::Add => Token::OperatorAdd,
        BinaryOperator::Subtract => Token::OperatorSubtract,
        BinaryOperator::Multiply => Token::OperatorMultiply,
        BinaryOperator::Divide => Token::OperatorDivide,
        BinaryOperator::Equal => Token::OperatorEqual,
        BinaryOperator::NotEqual => Token::OperatorNotEqual,
        BinaryOperator::GreaterThan => Token::OperatorGreaterThan,
        BinaryOperator::GreaterThanOrEqual => Token::OperatorGreaterThanOrEqual,
        BinaryOperator::LessThan => Token::OperatorLessThan,
        BinaryOperator::LessThanOrEqual => Token::OperatorLessThanOrEqual,
        BinaryOperator::And => Token::KeywordAnd,
        BinaryOperator::Or => Token::KeywordOr,
    }
}

/// Whether two types have the same name.
pub open spec fn same_type(named: ast::LogicalType, logical_type: LogicalType) -> bool {
    match logical_type {
        LogicalType::Bool => named is Bool,
        LogicalType::Int32 => named is Int32,
        LogicalType::Int64 => named is Int64,
        LogicalType::UInt32 => named is UInt32,
        LogicalType::UInt64 => named is UInt64,
        LogicalType::Float32 => named is Float32,
        LogicalType::Float64 => named is Float64,
        LogicalType::Utf8 => named is Utf8,
        LogicalType::Datetime => named is Datetime,
        LogicalType::Eid => named is Eid,
        LogicalType::Json => named is Json,
    }
}

/// Whether an expression is made of constants alone.
pub open spec fn is_constant(expression: ast::Expression) -> bool
    decreases expression,
{
    match expression.kind {
        ast::ExpressionKind::Literal(_) => true,
        ast::ExpressionKind::Constructor(_) => true,
        ast::ExpressionKind::Field(_) => false,
        ast::ExpressionKind::Remainder(_) => false,
        ast::ExpressionKind::Cast(cast) => is_constant(*cast.expression),
        ast::ExpressionKind::Unary { operand, .. } => is_constant(*operand),
        ast::ExpressionKind::Binary { left, right, .. } => is_constant(*left) && is_constant(
            *right,
        ),
    }
}

/// Whether a typed expression says what an expression of a query says: the same operators, on the
/// same operands in the same order, of the same fields. Only what is made of constants alone may
/// have become a constant.
pub open spec fn says(made: Expression, expression: ast::Expression) -> bool
    decreases expression,
{
    match made.kind {
        ExpressionKind::Literal(_) => is_constant(expression),
        ExpressionKind::Field(field) => expression.kind matches ast::ExpressionKind::Field(
            reference,
        ) && field.name@ == reference.name()@,
        ExpressionKind::Remainder { function, remainder, key } => {
            &&& remainder.name@ == REMAINDER_FIELD_NAME@
            &&& match expression.kind {
                ast::ExpressionKind::Field(reference) => reference is User && key@
                    == reference.name()@ && function is Value,
                ast::ExpressionKind::Remainder(access) => key == access.key.value && match function {
                    RemainderFunction::Value => access.function is Value,
                    RemainderFunction::Exists => access.function is Exists,
                },
                _ => false,
            }
        },
        ExpressionKind::Unary { operator, operand } => match expression.kind {
            ast::ExpressionKind::Unary { operator: sign, operand: inner } => says(*operand, *inner)
                && match operator {
                UnaryOperator::Not => sign is Not,
                UnaryOperator::Negate => sign is Negate,
            },
            _ => false,
        },
        ExpressionKind::Cast { kind, expression: operand, target } => match expression.kind {
            ast::ExpressionKind::Cast(cast) => {
                &&& says(*operand, *cast.expression)
                &&& same_type(cast.target, target)
                &&& match kind {
                    CastKind::Strict => cast.kind is Strict,
                    CastKind::NullOnFailure => cast.kind is NullOnFailure,
                    CastKind::Lossless => false,
                }
            },
            _ => false,
        },
        ExpressionKind::NullPredicate { expression: tested, predicate } => match expression.kind {
            ast::ExpressionKind::Binary { operator, left, right } => {
                &&& match predicate {
                    NullPredicate::IsNull => operator is Equal,
                    NullPredicate::IsNotNull => operator is NotEqual,
                }
                &&& {
                    ||| is_null_word(*right) && says(*tested, *left)
                    ||| is_null_word(*left) && says(*tested, *right)
                }
            },
            _ => false,
        },
        ExpressionKind::Binary { operator, left, right } => match expression.kind {
            ast::ExpressionKind::Binary { operator: sign, left: first, right: second } => {
                &&& pipeline_token(operator) == operator_token(sign)
                &&& says(without_widening(*left), *first)
                &&& says(without_widening(*right), *second)
            },
            _ => false,
        },
    }
}

/// Whether an expression is the word `null`.
pub open spec fn is_null_word(expression: ast::Expression) -> bool {
    expression.kind matches ast::ExpressionKind::Literal(literal) && literal.kind is Null
}

/// What was widened to a type that holds all its values.
pub open spec fn without_widening(expression: Expression) -> Expression {
    match expression.kind {
        ExpressionKind::Cast { kind: CastKind::Lossless, expression: operand, .. } => *operand,
        _ => expression,
    }
}

proof fn lemma_field_named(fields: Seq<Field>, name: Seq<char>, from: int)
    ensures
        field_named(fields, name, from) matches Some(field) ==> field.name@ == name,
    decreases fields.len() - from,
{
    if 0 <= from < fields.len() && fields[from].name@ != name {
        lemma_field_named(fields, name, from + 1);
    }
}

proof fn lemma_coerced_says(made: Expression, target: LogicalType, expression: ast::Expression)
    requires
        says(made, expression),
    ensures
        says(without_widening(coerced(made, target)), expression),
{
    if let ExpressionKind::Cast { kind, .. } = made.kind {
        assert(kind !is Lossless);
    }
}

proof fn lemma_binary_says(
    operator: ast::BinaryOperator,
    left: Expression,
    right: Expression,
    span: Span,
    facts: FloatFacts,
    expression: ast::Expression,
)
    requires
        expression.kind matches ast::ExpressionKind::Binary { operator: sign, left: first, right: second }
            && sign == operator && says(left, *first) && says(right, *second),
    ensures
        typed_binary(operator, left, right, span, facts) matches Ok(made) ==> says(
            made,
            expression,
        ),
{
    let first = *expression.kind->Binary_left;
    let second = *expression.kind->Binary_right;
    if let Some(target) = common_type(left.logical_type, right.logical_type) {
        lemma_coerced_says(left, target, first);
        lemma_coerced_says(right, target, second);
    }
    if let ExpressionKind::Cast { kind, .. } = left.kind {
        assert(kind !is Lossless);
    }
    if let ExpressionKind::Cast { kind, .. } = right.kind {
        assert(kind !is Lossless);
    }
}

proof fn lemma_unary_says(operand: Expression, expression: ast::Expression)
    requires
        expression.kind matches ast::ExpressionKind::Unary { operator, operand: inner } && says(
            operand,
            *inner,
        ),
    ensures
        typed_unary(expression.kind->Unary_operator, operand, expression.span) matches Ok(made)
            ==> says(made, expression),
{
}

proof fn lemma_cast_says(operand: Expression, expression: ast::Expression)
    requires
        expression.kind matches ast::ExpressionKind::Cast(cast) && says(operand, *cast.expression),
    ensures
        typed_cast(expression.kind->Cast_0, operand) matches Ok(made) ==> says(made, expression),
{
}

proof fn lemma_null_predicate_says(value: Expression, expression: ast::Expression)
    requires
        expression.kind matches ast::ExpressionKind::Binary { operator, left, right } && (
        operator is Equal || operator is NotEqual) && (is_null_word(*right) && says(value, *left)
            || is_null_word(*left) && says(value, *right)),
    ensures
        says(typed_null_predicate(expression.kind->Binary_operator, value), expression),
{
    let left = *expression.kind->Binary_left;
    let right = *expression.kind->Binary_right;
    if value.kind is Literal {
        assert(is_constant(left) && is_constant(right));
    }
}

/// A typed expression says what the expression that it was made of says. The operator in it is that
/// of the token in the query, its operands stand on the same sides, and an equality with `null` asks
/// whether the other side is null.
#[verifier::rlimit(50)]
#[verifier::spinoff_prover]
pub proof fn typed_expressions_say_what_was_written(
    expression: ast::Expression,
    fields: Seq<Field>,
    expected: Option<LogicalType>,
    facts: FloatFacts,
)
    ensures
        typed(expression, fields, expected, facts) matches Ok(made) ==> says(made, expression),
    decreases expression,
{
    match expression.kind {
        ast::ExpressionKind::Field(reference) => {
            lemma_field_named(fields, reference.name()@, 0);
            lemma_field_named(fields, REMAINDER_FIELD_NAME@, 0);
        },
        ast::ExpressionKind::Remainder(_) => {
            lemma_field_named(fields, REMAINDER_FIELD_NAME@, 0);
        },
        ast::ExpressionKind::Cast(cast) => {
            let context = cast_context(cast);
            typed_expressions_say_what_was_written(*cast.expression, fields, context, facts);
            if let Ok(operand) = typed(*cast.expression, fields, context, facts) {
                lemma_cast_says(operand, expression);
            }
        },
        ast::ExpressionKind::Unary { operator, operand } => {
            let context = unary_context(operator, expected);
            typed_expressions_say_what_was_written(*operand, fields, context, facts);
            if let Ok(inner) = typed(*operand, fields, context, facts) {
                lemma_unary_says(inner, expression);
            }
            if let Some(_) = negated_integer(operator, *operand) {
                assert(is_constant(*operand));
                assert(is_constant(expression));
            }
        },
        ast::ExpressionKind::Binary { operator, left, right } => {
            let span = expression.span;
            if tested_for_null(operator, *left, *right) {
                typed_expressions_say_what_was_written(*left, fields, None, facts);
                typed_expressions_say_what_was_written(*right, fields, None, facts);
                if let Ok(value) = typed(*left, fields, None, facts) {
                    if is_null(*right) {
                        lemma_null_predicate_says(value, expression);
                    }
                }
                if let Ok(value) = typed(*right, fields, None, facts) {
                    if is_null(*left) {
                        lemma_null_predicate_says(value, expression);
                    }
                }
            } else {
                match pair_order(operator, *left, *right, expected) {
                    PairOrder::Both(context) => {
                        typed_expressions_say_what_was_written(*left, fields, context, facts);
                        typed_expressions_say_what_was_written(*right, fields, context, facts);
                        if let (Ok(first), Ok(second)) = (
                            typed(*left, fields, context, facts),
                            typed(*right, fields, context, facts),
                        ) {
                            lemma_binary_says(operator, first, second, span, facts, expression);
                        }
                    },
                    PairOrder::LeftFirst(context) => {
                        typed_expressions_say_what_was_written(*left, fields, context, facts);
                        if let Ok(first) = typed(*left, fields, context, facts) {
                            let given = Some(first.logical_type);
                            typed_expressions_say_what_was_written(*right, fields, given, facts);
                            if let Ok(second) = typed(*right, fields, given, facts) {
                                lemma_binary_says(operator, first, second, span, facts, expression);
                            }
                        }
                    },
                    PairOrder::RightFirst(context) => {
                        typed_expressions_say_what_was_written(*right, fields, context, facts);
                        if let Ok(second) = typed(*right, fields, context, facts) {
                            let given = Some(second.logical_type);
                            typed_expressions_say_what_was_written(*left, fields, given, facts);
                            if let Ok(first) = typed(*left, fields, given, facts) {
                                lemma_binary_says(operator, first, second, span, facts, expression);
                            }
                        }
                    },
                }
            }
        },
        _ => {},
    }
}

/// The whole number nearest to a quotient between it and zero.
pub open spec fn toward_zero(left: int, right: int) -> int {
    let size = (if left < 0 {
        -left
    } else {
        left
    }) / (if right < 0 {
        -right
    } else {
        right
    });
    if (left < 0) == (right < 0) {
        size
    } else {
        -size
    }
}

/// The number that an expression made of integers alone denotes. A division by zero denotes none.
pub open spec fn number_of(expression: ast::Expression) -> Option<int>
    decreases expression,
{
    match expression.kind {
        ast::ExpressionKind::Literal(literal) => match literal.kind {
            LiteralKind::Integer(magnitude) => Some(magnitude as int),
            _ => None,
        },
        ast::ExpressionKind::Constructor(constructor) => match constructor.kind {
            ConstructorKind::Numeric { literal, .. } => match literal.kind {
                NumericLiteralKind::Integer(magnitude) => if literal.sign is Negative {
                    Some(-(magnitude as int))
                } else {
                    Some(magnitude as int)
                },
                _ => None,
            },
            _ => None,
        },
        ast::ExpressionKind::Unary { operator, operand } => match number_of(*operand) {
            Some(number) if operator is Negate => Some(-number),
            _ => None,
        },
        ast::ExpressionKind::Binary { operator, left, right } => match (
            number_of(*left),
            number_of(*right),
        ) {
            (Some(first), Some(second)) => match operator {
                ast::BinaryOperator::Add => Some(first + second),
                ast::BinaryOperator::Subtract => Some(first - second),
                ast::BinaryOperator::Multiply => Some(first * second),
                ast::BinaryOperator::Divide => if second == 0 {
                    None
                } else {
                    Some(toward_zero(first, second))
                },
                _ => None,
            },
            _ => None,
        },
        _ => None,
    }
}

/// The number that an integer constant is.
pub open spec fn constant_number(literal: Literal) -> Option<int> {
    match literal {
        Literal::Int32(value) => Some(value as int),
        Literal::Int64(value) => Some(value as int),
        Literal::UInt32(value) => Some(value as int),
        Literal::UInt64(value) => Some(value as int),
        _ => None,
    }
}

/// Whether a type holds whole numbers alone.
pub open spec fn holds_integers(logical_type: LogicalType) -> bool {
    logical_type is Int32 || logical_type is Int64 || logical_type is UInt32 || logical_type
        is UInt64
}

/// Whether a typed expression is the constant of a number, if its type holds whole numbers alone.
pub open spec fn is_number(made: Expression, number: int) -> bool {
    holds_integers(made.logical_type) ==> {
        &&& made.kind matches ExpressionKind::Literal(literal)
        &&& literal.ty() == made.logical_type
        &&& constant_number(literal) == Some(number)
    }
}

/// Whether a typed expression is of a numeric type, and a constant of that type if it is one.
pub open spec fn is_numeric_value(made: Expression) -> bool {
    &&& holds_integers(made.logical_type) || made.logical_type is Float32 || made.logical_type
        is Float64
    &&& made.kind matches ExpressionKind::Literal(literal) ==> literal.ty() == made.logical_type
}

/// What a comparison of two numbers says.
pub open spec fn holds(operator: ast::BinaryOperator, left: int, right: int) -> bool {
    match operator_token(operator) {
        Token::OperatorEqual => left == right,
        Token::OperatorNotEqual => left != right,
        Token::OperatorGreaterThan => left > right,
        Token::OperatorGreaterThanOrEqual => left >= right,
        Token::OperatorLessThan => left < right,
        Token::OperatorLessThanOrEqual => left <= right,
        _ => false,
    }
}

/// Whether an operator compares.
pub open spec fn compares(operator: ast::BinaryOperator) -> bool {
    match operator_token(operator) {
        Token::OperatorEqual
        | Token::OperatorNotEqual
        | Token::OperatorGreaterThan
        | Token::OperatorGreaterThanOrEqual
        | Token::OperatorLessThan
        | Token::OperatorLessThanOrEqual => true,
        _ => false,
    }
}

/// Whether some type that holds whole numbers alone holds all values of two others.
pub open spec fn shares_integers(left: LogicalType, right: LogicalType) -> bool {
    match left {
        LogicalType::Int32 | LogicalType::Int64 => right is Int32 || right is Int64,
        LogicalType::UInt32 | LogicalType::UInt64 => right is UInt32 || right is UInt64,
        _ => false,
    }
}

/// Two integer constants whose types have an integer type in common are compared as the numbers that
/// they are, and their sum, difference, product and quotient are those of the numbers, the quotient
/// rounded toward zero. A result that the type does not hold, and a division by zero, is an error.
pub proof fn integer_constants_are_computed_exactly(
    operator: ast::BinaryOperator,
    left: Expression,
    right: Expression,
    span: Span,
    facts: FloatFacts,
    first: int,
    second: int,
)
    requires
        holds_integers(left.logical_type),
        holds_integers(right.logical_type),
        is_number(left, first),
        is_number(right, second),
    ensures
        ({
            let made = typed_binary(operator, left, right, span, facts);
            &&& compares(operator) && shares_integers(left.logical_type, right.logical_type)
                ==> made == Ok::<Expression, SemanticError>(
                Expression::of_literal(Literal::Boolean(holds(operator, first, second))),
            )
            &&& !compares(operator) ==> match made {
                Ok(value) => {
                    &&& holds_integers(value.logical_type) || value.logical_type is Float64
                    &&& is_number(
                        value,
                        match operator_token(operator) {
                            Token::OperatorAdd => first + second,
                            Token::OperatorSubtract => first - second,
                            Token::OperatorMultiply => first * second,
                            _ => toward_zero(first, second),
                        },
                    )
                    &&& !(operator is Divide && second == 0 && holds_integers(value.logical_type))
                },
                Err(_) => true,
            }
        }),
{
}

/// An expression made of integers alone whose type holds whole numbers alone becomes the constant of
/// the number that it denotes.
#[verifier::rlimit(50)]
#[verifier::spinoff_prover]
pub proof fn integer_expressions_become_their_number(
    expression: ast::Expression,
    fields: Seq<Field>,
    expected: Option<LogicalType>,
    facts: FloatFacts,
    number: int,
)
    requires
        number_of(expression) == Some(number),
    ensures
        typed(expression, fields, expected, facts) matches Ok(made) ==> is_number(made, number)
            && is_numeric_value(made),
    decreases expression,
{
    match expression.kind {
        ast::ExpressionKind::Unary { operator, operand } => {
            let inner = number_of(*operand)->0;
            integer_expressions_become_their_number(
                *operand,
                fields,
                unary_context(operator, expected),
                facts,
                inner,
            );
        },
        ast::ExpressionKind::Binary { operator, left, right } => {
            let first = number_of(*left)->0;
            let second = number_of(*right)->0;
            let span = expression.span;
            match pair_order(operator, *left, *right, expected) {
                PairOrder::Both(context) => {
                    integer_expressions_become_their_number(*left, fields, context, facts, first);
                    integer_expressions_become_their_number(*right, fields, context, facts, second);
                    if let (Ok(left), Ok(right)) = (
                        typed(*left, fields, context, facts),
                        typed(*right, fields, context, facts),
                    ) {
                        lemma_computed(operator, left, right, span, facts, first, second);
                    }
                },
                PairOrder::LeftFirst(context) => {
                    integer_expressions_become_their_number(*left, fields, context, facts, first);
                    if let Ok(left) = typed(*left, fields, context, facts) {
                        let given = Some(left.logical_type);
                        integer_expressions_become_their_number(
                            *right,
                            fields,
                            given,
                            facts,
                            second,
                        );
                        if let Ok(right) = typed(*right, fields, given, facts) {
                            lemma_computed(operator, left, right, span, facts, first, second);
                        }
                    }
                },
                PairOrder::RightFirst(context) => {
                    integer_expressions_become_their_number(*right, fields, context, facts, second);
                    if let Ok(right) = typed(*right, fields, context, facts) {
                        let given = Some(right.logical_type);
                        integer_expressions_become_their_number(*left, fields, given, facts, first);
                        if let Ok(left) = typed(*left, fields, given, facts) {
                            lemma_computed(operator, left, right, span, facts, first, second);
                        }
                    }
                },
            }
        },
        _ => {},
    }
}

proof fn lemma_computed(
    operator: ast::BinaryOperator,
    left: Expression,
    right: Expression,
    span: Span,
    facts: FloatFacts,
    first: int,
    second: int,
)
    requires
        operator is Add || operator is Subtract || operator is Multiply || operator is Divide,
        is_numeric_value(left),
        is_numeric_value(right),
        is_number(left, first),
        is_number(right, second),
    ensures
        typed_binary(operator, left, right, span, facts) matches Ok(made) ==> is_numeric_value(
            made,
        ) && is_number(
            made,
            match operator {
                ast::BinaryOperator::Add => first + second,
                ast::BinaryOperator::Subtract => first - second,
                ast::BinaryOperator::Multiply => first * second,
                _ => toward_zero(first, second),
            },
        ),
{
    if holds_integers(left.logical_type) && holds_integers(right.logical_type) {
        integer_constants_are_computed_exactly(operator, left, right, span, facts, first, second);
    }
    common_types_are_lossless(left.logical_type, right.logical_type);
    let common = common_type(left.logical_type, right.logical_type);
    if let Some(target) = common {
        let (a, b) = (coerced(left, target), coerced(right, target));
        if let (ExpressionKind::Literal(l), ExpressionKind::Literal(r)) = (a.kind, b.kind) {
            folding_keeps_types(pipeline_operator(operator), l, r, target, facts);
        }
    }
}

/// Whether an expression is made of bare integers and arithmetic alone.
pub open spec fn is_bare(expression: ast::Expression) -> bool
    decreases expression,
{
    match expression.kind {
        ast::ExpressionKind::Literal(literal) => literal.kind is Integer,
        ast::ExpressionKind::Unary { operator, operand } => operator is Negate && is_bare(*operand),
        ast::ExpressionKind::Binary { operator, left, right } => (operator is Add || operator
            is Subtract || operator is Multiply || operator is Divide) && is_bare(*left)
            && is_bare(*right),
        _ => false,
    }
}

proof fn lemma_bare(expression: ast::Expression)
    requires
        is_bare(expression),
    ensures
        is_contextual(expression),
        !is_null(expression),
    decreases expression,
{
    match expression.kind {
        ast::ExpressionKind::Unary { operand, .. } => {
            lemma_bare(*operand);
        },
        ast::ExpressionKind::Binary { left, right, .. } => {
            lemma_bare(*left);
            lemma_bare(*right);
        },
        _ => {},
    }
}

/// Bare integers are of the integer type that is expected of them, and of `int64` if none is.
#[verifier::rlimit(50)]
#[verifier::spinoff_prover]
pub proof fn bare_integers_take_the_expected_type(
    expression: ast::Expression,
    fields: Seq<Field>,
    expected: Option<LogicalType>,
    facts: FloatFacts,
)
    requires
        is_bare(expression),
        expected matches Some(logical_type) ==> holds_integers(logical_type),
    ensures
        typed(expression, fields, expected, facts) matches Ok(made) ==> made.logical_type
            == match expected {
            Some(logical_type) => logical_type,
            None => LogicalType::Int64,
        } && is_numeric_value(made),
    decreases expression,
{
    match expression.kind {
        ast::ExpressionKind::Unary { operator, operand } => {
            bare_integers_take_the_expected_type(
                *operand,
                fields,
                unary_context(operator, expected),
                facts,
            );
            if let Ok(made) = typed(*operand, fields, unary_context(operator, expected), facts) {
                lemma_unary_keeps_type(operator, made, expression.span);
            }
        },
        ast::ExpressionKind::Binary { operator, left, right } => {
            lemma_bare(*left);
            lemma_bare(*right);
            let span = expression.span;
            bare_integers_take_the_expected_type(*left, fields, expected, facts);
            let given = Some(
                match expected {
                    Some(logical_type) => logical_type,
                    None => LogicalType::Int64,
                },
            );
            bare_integers_take_the_expected_type(*right, fields, given, facts);
            assert(pair_order(operator, *left, *right, expected) == match expected {
                Some(_) => PairOrder::Both(expected),
                None => PairOrder::LeftFirst(None),
            });
            if let (Ok(left), Ok(right)) = (
                typed(*left, fields, expected, facts),
                typed(*right, fields, given, facts),
            ) {
                lemma_binary_keeps_type(operator, left, right, span, facts);
            }
        },
        _ => {},
    }
}

proof fn lemma_unary_keeps_type(operator: ast::UnaryOperator, operand: Expression, span: Span)
    requires
        operator is Negate,
        operand.kind matches ExpressionKind::Literal(literal) ==> literal.ty()
            == operand.logical_type,
    ensures
        typed_unary(operator, operand, span) matches Ok(made) ==> made.logical_type
            == operand.logical_type && (made.kind matches ExpressionKind::Literal(literal)
            ==> literal.ty() == made.logical_type),
{
}

proof fn lemma_binary_keeps_type(
    operator: ast::BinaryOperator,
    left: Expression,
    right: Expression,
    span: Span,
    facts: FloatFacts,
)
    requires
        operator is Add || operator is Subtract || operator is Multiply || operator is Divide,
        holds_integers(left.logical_type),
        left.logical_type == right.logical_type,
        left.kind matches ExpressionKind::Literal(literal) ==> literal.ty() == left.logical_type,
        right.kind matches ExpressionKind::Literal(literal) ==> literal.ty() == right.logical_type,
    ensures
        typed_binary(operator, left, right, span, facts) matches Ok(made) ==> made.logical_type
            == left.logical_type && (made.kind matches ExpressionKind::Literal(literal)
            ==> literal.ty() == made.logical_type),
{
    if let (ExpressionKind::Literal(l), ExpressionKind::Literal(r)) = (left.kind, right.kind) {
        folding_keeps_types(pipeline_operator(operator), l, r, left.logical_type, facts);
    }
}

/// A comparison of bare integers, however they are computed, becomes the truth of that comparison of
/// the numbers that they denote.
pub proof fn constant_comparisons_are_decided(
    expression: ast::Expression,
    fields: Seq<Field>,
    expected: Option<LogicalType>,
    facts: FloatFacts,
    first: int,
    second: int,
)
    requires
        expression.kind matches ast::ExpressionKind::Binary { operator, left, right } && compares(
            operator,
        ) && is_bare(*left) && is_bare(*right) && number_of(*left) == Some(first) && number_of(
            *right,
        ) == Some(second),
    ensures
        typed(expression, fields, expected, facts) matches Ok(made) ==> made
            == Expression::of_literal(
            Literal::Boolean(holds(expression.kind->Binary_operator, first, second)),
        ),
{
    let operator = expression.kind->Binary_operator;
    let left = *expression.kind->Binary_left;
    let right = *expression.kind->Binary_right;
    lemma_bare(left);
    lemma_bare(right);
    integer_expressions_become_their_number(left, fields, None, facts, first);
    bare_integers_take_the_expected_type(left, fields, None, facts);
    let given = Some(LogicalType::Int64);
    integer_expressions_become_their_number(right, fields, given, facts, second);
    bare_integers_take_the_expected_type(right, fields, given, facts);
    if let (Ok(made), Ok(other)) = (
        typed(left, fields, None, facts),
        typed(right, fields, given, facts),
    ) {
        integer_constants_are_computed_exactly(
            operator,
            made,
            other,
            expression.span,
            facts,
            first,
            second,
        );
    }
}

/// Whether an expression that ends at `at` ends there: at the end of the query, or before a sign that
/// no expression goes on with.
pub open spec fn ends(tokens: Seq<Lexeme>, at: int) -> bool {
    at == tokens.len() || 0 <= at < tokens.len() && (tokens[at].token is Pipe || tokens[at].token
        is Comma || tokens[at].token is RightParenthesis)
}

/// Two integers with a comparison between them are read as that comparison, and it becomes true
/// exactly if the first stands in that relation to the second: `<=` exactly if the first is at most
/// the second, and so for each of the comparisons.
pub proof fn written_comparisons_are_decided(
    tokens: Seq<Lexeme>,
    at: int,
    first: u64,
    second: u64,
    fields: Seq<Field>,
    expected: Option<LogicalType>,
    facts: FloatFacts,
)
    requires
        0 <= at,
        at + 3 <= tokens.len(),
        ends(tokens, at + 3),
        tokens[at].token == Token::Integer(first),
        tokens[at + 2].token == Token::Integer(second),
        first <= i64::MAX,
        second <= i64::MAX,
        match tokens[at + 1].token {
            Token::OperatorEqual
            | Token::OperatorNotEqual
            | Token::OperatorGreaterThan
            | Token::OperatorGreaterThanOrEqual
            | Token::OperatorLessThan
            | Token::OperatorLessThanOrEqual => true,
            _ => false,
        },
    ensures
        ({
            &&& expression_at(tokens, at) matches Ok((expression, next))
            &&& next == at + 3
            &&& typed(expression, fields, expected, facts) == Ok::<Expression, SemanticError>(
                Expression::of_literal(
                    Literal::Boolean(
                        match tokens[at + 1].token {
                            Token::OperatorEqual => first == second,
                            Token::OperatorNotEqual => first != second,
                            Token::OperatorGreaterThan => first > second,
                            Token::OperatorGreaterThanOrEqual => first >= second,
                            Token::OperatorLessThan => first < second,
                            _ => first <= second,
                        },
                    ),
                ),
            )
        }),
{
    let left = level_at(tokens, at, 0)->Ok_0.0;
    let right = level_at(tokens, at + 2, 0)->Ok_0.0;
    lemma_integer_alone(tokens, at, first);
    lemma_integer_alone(tokens, at + 2, second);
    lemma_not_joined(tokens, at, at + 1, left, 0, 2);
    lemma_not_joined(tokens, at + 2, at + 3, right, 0, 2);
    let whole = ast::Expression {
        kind: ast::ExpressionKind::Binary {
            operator: operator_of(tokens[at + 1].token, 3)->0,
            left: Box::new(left),
            right: Box::new(right),
        },
        span: span_of(tokens, at, at + 3),
    };
    assert(joined_from(tokens, at, at + 1, left, 3) == Ok::<(ast::Expression, int), int>(
        (whole, at + 3),
    ));
    assert(level_at(tokens, at, 3) == Ok::<(ast::Expression, int), int>((whole, at + 3)));
    lemma_not_joined(tokens, at, at + 3, whole, 3, 5);
    lemma_literals_compared(whole, fields, expected, facts, first, second);
}

proof fn lemma_literals_compared(
    expression: ast::Expression,
    fields: Seq<Field>,
    expected: Option<LogicalType>,
    facts: FloatFacts,
    first: u64,
    second: u64,
)
    requires
        first <= i64::MAX,
        second <= i64::MAX,
        expression.kind matches ast::ExpressionKind::Binary { operator, left, right } && compares(
            operator,
        ) && (left.kind matches ast::ExpressionKind::Literal(literal) && literal.kind
            == LiteralKind::Integer(first)) && (right.kind matches ast::ExpressionKind::Literal(
            literal,
        ) && literal.kind == LiteralKind::Integer(second)),
    ensures
        typed(expression, fields, expected, facts) == Ok::<Expression, SemanticError>(
            Expression::of_literal(
                Literal::Boolean(
                    holds(expression.kind->Binary_operator, first as int, second as int),
                ),
            ),
        ),
{
    let operator = expression.kind->Binary_operator;
    let left = *expression.kind->Binary_left;
    let right = *expression.kind->Binary_right;
    let given = Some(LogicalType::Int64);
    let made = Expression::of_literal(Literal::Int64(first as i64));
    let other = Expression::of_literal(Literal::Int64(second as i64));
    assert(is_contextual(left) && is_contextual(right));
    assert(typed(left, fields, None, facts) == Ok::<Expression, SemanticError>(made));
    assert(typed(right, fields, given, facts) == Ok::<Expression, SemanticError>(other));
    assert(pair_order(operator, left, right, expected) == PairOrder::LeftFirst(None));
    integer_constants_are_computed_exactly(
        operator,
        made,
        other,
        expression.span,
        facts,
        first as int,
        second as int,
    );
}

proof fn lemma_not_joined(
    tokens: Seq<Lexeme>,
    at: int,
    next: int,
    expression: ast::Expression,
    low: nat,
    level: nat,
)
    requires
        0 <= at < next <= tokens.len(),
        low <= level,
        level_at(tokens, at, low) == Ok::<(ast::Expression, int), int>((expression, next)),
        next == tokens.len() || forall|between: nat|
            low < between <= level ==> #[trigger] operator_of(tokens[next].token, between) is None,
    ensures
        level_at(tokens, at, level) == Ok::<(ast::Expression, int), int>((expression, next)),
    decreases level,
{
    if low < level {
        lemma_not_joined(tokens, at, next, expression, low, (level - 1) as nat);
        if next < tokens.len() {
            assert(operator_of(tokens[next].token, level) is None);
        }
        assert(joined_from(tokens, at, next, expression, level) == Ok::<
            (ast::Expression, int),
            int,
        >((expression, next)));
    }
}

proof fn lemma_integer_alone(tokens: Seq<Lexeme>, at: int, value: u64)
    requires
        0 <= at < tokens.len(),
        tokens[at].token == Token::Integer(value),
    ensures
        ({
            &&& level_at(tokens, at, 0) matches Ok((expression, next))
            &&& next == at + 1
            &&& expression.kind matches ast::ExpressionKind::Literal(literal)
            &&& literal.kind == LiteralKind::Integer(value)
        }),
{
    assert(primary_at(tokens, at) is Ok);
    assert(unary_at(tokens, at) == primary_at(tokens, at));
}

/// The truth value that an expression made of constants alone has, if `null` stands for an unknown
/// one: a conjunction is false if either side is, a disjunction true if either side is, and both are
/// otherwise unknown if either side is.
pub open spec fn truth(expression: ast::Expression) -> Option<Option<bool>>
    decreases expression,
{
    match expression.kind {
        ast::ExpressionKind::Literal(literal) => match literal.kind {
            LiteralKind::Boolean(value) => Some(Some(value)),
            LiteralKind::Null => Some(None),
            _ => None,
        },
        ast::ExpressionKind::Unary { operator, operand } => match truth(*operand) {
            Some(Some(value)) if operator is Not => Some(Some(!value)),
            Some(None) if operator is Not => Some(None),
            _ => None,
        },
        ast::ExpressionKind::Binary { operator, left, right } => match operator {
            ast::BinaryOperator::And => match (truth(*left), truth(*right)) {
                (Some(first), Some(second)) => if first == Some(false) || second == Some(false) {
                    Some(Some(false))
                } else if first is None || second is None {
                    Some(None)
                } else {
                    Some(Some(true))
                },
                _ => None,
            },
            ast::BinaryOperator::Or => match (truth(*left), truth(*right)) {
                (Some(first), Some(second)) => if first == Some(true) || second == Some(true) {
                    Some(Some(true))
                } else if first is None || second is None {
                    Some(None)
                } else {
                    Some(Some(false))
                },
                _ => None,
            },
            _ => if compares(operator) && is_bare(*left) && is_bare(*right) {
                match (number_of(*left), number_of(*right)) {
                    (Some(first), Some(second)) => Some(Some(holds(operator, first, second))),
                    _ => None,
                }
            } else {
                None
            },
        },
        _ => None,
    }
}

/// The constant that a truth value is.
pub open spec fn truth_constant(value: Option<bool>) -> Literal {
    match value {
        Some(value) => Literal::Boolean(value),
        None => Literal::Null(LogicalType::Bool),
    }
}

/// Negations, conjunctions and disjunctions of constants become the truth value that they have.
#[verifier::rlimit(30)]
pub proof fn constant_conditions_are_decided(
    expression: ast::Expression,
    fields: Seq<Field>,
    facts: FloatFacts,
    value: Option<bool>,
)
    requires
        truth(expression) == Some(value),
    ensures
        typed(expression, fields, Some(LogicalType::Bool), facts) matches Ok(made) ==> made
            == Expression::of_literal(truth_constant(value)),
    decreases expression,
{
    match expression.kind {
        ast::ExpressionKind::Unary { operand, .. } => {
            constant_conditions_are_decided(*operand, fields, facts, truth(*operand)->0);
        },
        ast::ExpressionKind::Binary { operator, left, right } => {
            if operator is And || operator is Or {
                constant_conditions_are_decided(*left, fields, facts, truth(*left)->0);
                constant_conditions_are_decided(*right, fields, facts, truth(*right)->0);
            } else {
                constant_comparisons_are_decided(
                    expression,
                    fields,
                    Some(LogicalType::Bool),
                    facts,
                    number_of(*left)->0,
                    number_of(*right)->0,
                );
            }
        },
        _ => {},
    }
}

/// Whether one text comes before another: where they first differ it has the lesser character, or it
/// ends there.
pub open spec fn comes_before(left: Seq<char>, right: Seq<char>) -> bool {
    exists|at: int| #[trigger] differs_at(left, right, at) && (at == left.len() || left[at]
        < right[at])
}

/// Whether two texts are the same before a place, and at it differ in the character of the second.
pub open spec fn differs_at(left: Seq<char>, right: Seq<char>, at: int) -> bool {
    &&& 0 <= at <= left.len()
    &&& at < right.len()
    &&& forall|i: int| 0 <= i < at ==> #[trigger] left[i] == right[i]
    &&& at < left.len() ==> left[at] != right[at]
}

proof fn lemma_precedes(left: Seq<char>, right: Seq<char>, at: int)
    requires
        0 <= at <= left.len(),
        at <= right.len(),
        forall|i: int| 0 <= i < at ==> #[trigger] left[i] == right[i],
    ensures
        text_precedes(left, right, at) <==> comes_before(left, right),
        !text_precedes(left, right, at) && !text_precedes(right, left, at) ==> left == right,
        !(text_precedes(left, right, at) && text_precedes(right, left, at)),
    decreases left.len() - at,
{
    if at < left.len() && at < right.len() && left[at] == right[at] {
        lemma_precedes(left, right, at + 1);
    } else {
        if text_precedes(left, right, at) {
            assert(differs_at(left, right, at));
        }
        if comes_before(left, right) {
            let other = choose|other: int| #[trigger]
                differs_at(left, right, other) && (other == left.len() || left[other]
                    < right[other]);
            if other < at {
                assert(left[other] == right[other]);
            }
            if at < other {
                assert(left[at] == right[at]);
            }
        }
        if !text_precedes(left, right, at) && !text_precedes(right, left, at) {
            assert(left =~= right);
        }
    }
}

/// Two constant texts are compared character by character: they are equal if they are the same, and
/// the lesser is the one that comes before the other.
pub proof fn constant_texts_are_compared(
    operator: ast::BinaryOperator,
    left: String,
    right: String,
    facts: FloatFacts,
)
    requires
        compares(operator),
    ensures
        binary_folded(
            pipeline_operator(operator),
            Literal::Utf8(left),
            Literal::Utf8(right),
            LogicalType::Bool,
            facts,
        ) == Ok::<Option<Literal>, FoldFault>(
            Some(
                Literal::Boolean(
                    match operator_token(operator) {
                        Token::OperatorEqual => left@ == right@,
                        Token::OperatorNotEqual => left@ != right@,
                        Token::OperatorLessThan => comes_before(left@, right@),
                        Token::OperatorLessThanOrEqual => left@ == right@ || comes_before(
                            left@,
                            right@,
                        ),
                        Token::OperatorGreaterThan => comes_before(right@, left@),
                        _ => left@ == right@ || comes_before(right@, left@),
                    },
                ),
            ),
        ),
{
    lemma_precedes(left@, right@, 0);
    lemma_precedes(right@, left@, 0);
    if left@ == right@ {
        lemma_precedes(left@, left@, 0);
    }
}

/// Two constant instants are compared as their milliseconds are, two flags are equal if they are the
/// same, and a comparison with a null, or arithmetic with one, is null.
pub proof fn constant_instants_are_compared(
    operator: ast::BinaryOperator,
    left: Literal,
    right: Literal,
    logical_type: LogicalType,
    facts: FloatFacts,
)
    ensures
        ({
            let folded = binary_folded(
                pipeline_operator(operator),
                left,
                right,
                logical_type,
                facts,
            );
            &&& compares(operator) && left is Datetime && right is Datetime ==> folded == Ok::<
                Option<Literal>,
                FoldFault,
            >(
                Some(
                    Literal::Boolean(
                        holds(
                            operator,
                            left->Datetime_0.0 as int,
                            right->Datetime_0.0 as int,
                        ),
                    ),
                ),
            )
            &&& operator is Equal && left is Boolean && right is Boolean ==> folded == Ok::<
                Option<Literal>,
                FoldFault,
            >(Some(Literal::Boolean(left->Boolean_0 == right->Boolean_0)))
            &&& operator is NotEqual && left is Boolean && right is Boolean ==> folded == Ok::<
                Option<Literal>,
                FoldFault,
            >(Some(Literal::Boolean(left->Boolean_0 != right->Boolean_0)))
            &&& !(operator is And || operator is Or) && (left is Null || right is Null) ==> folded
                == Ok::<Option<Literal>, FoldFault>(Some(Literal::Null(logical_type)))
        }),
{
}

/// A cast is accepted exactly between numbers, to and from texts and JSON, and from a type to itself.
/// It gives the type that it names. It may be null if it yields null for what it cannot cast, if it
/// casts JSON, or if its operand may be null.
pub proof fn casts_give_the_type_that_they_name(cast: ast::CastExpression, operand: Expression)
    ensures
        typed_cast(cast, operand) is Ok <==> {
            ||| same_type(cast.target, operand.logical_type)
            ||| is_number_type(operand.logical_type) && names_number_type(cast.target)
            ||| operand.logical_type is Json || cast.target is Json
            ||| operand.logical_type is Utf8 || cast.target is Utf8
        },
        typed_cast(cast, operand) matches Ok(made) ==> {
            &&& same_type(cast.target, made.logical_type)
            &&& !(operand.kind is Literal) ==> (made.nullability == Nullability::Nullable <==> (
            cast.kind is NullOnFailure || operand.logical_type is Json || operand.nullability
                == Nullability::Nullable))
            &&& match operand.kind {
                ExpressionKind::Literal(Literal::Null(_)) => made.kind == ExpressionKind::Literal(
                    Literal::Null(made.logical_type),
                ),
                _ => true,
            }
        },
{
}

/// Whether a type is numeric.
pub open spec fn is_number_type(logical_type: LogicalType) -> bool {
    holds_integers(logical_type) || logical_type is Float32 || logical_type is Float64
}

/// Whether a type of a query is numeric.
pub open spec fn names_number_type(named: ast::LogicalType) -> bool {
    named is Int32 || named is Int64 || named is UInt32 || named is UInt64 || named is Float32
        || named is Float64
}

/// Whether an integer type holds a number.
pub open spec fn in_range(number: int, logical_type: LogicalType) -> bool {
    match logical_type {
        LogicalType::Int32 => -0x8000_0000 <= number <= 0x7fff_ffff,
        LogicalType::Int64 => -0x8000_0000_0000_0000 <= number <= 0x7fff_ffff_ffff_ffff,
        LogicalType::UInt32 => 0 <= number <= 0xffff_ffff,
        LogicalType::UInt64 => 0 <= number <= 0xffff_ffff_ffff_ffff,
        _ => false,
    }
}

/// An integer literal is accepted where an integer type is expected exactly if the type holds its
/// number, and is then the constant of that number. Where no type is expected, it is an `int64`. In a
/// constructor of an unsigned type no minus sign is accepted, not even before zero.
pub proof fn integer_literals_are_accepted_in_range(
    magnitude: u64,
    sign: NumericSign,
    expected: Option<LogicalType>,
    span: Span,
    constructor: bool,
)
    requires
        expected matches Some(logical_type) ==> holds_integers(logical_type),
    ensures
        ({
            let made = contextual_integer(magnitude, sign, expected, span, constructor);
            let number = if sign == NumericSign::Negative {
                -(magnitude as int)
            } else {
                magnitude as int
            };
            let logical_type = match expected {
                Some(logical_type) => logical_type,
                None => LogicalType::Int64,
            };
            let unsigned = logical_type is UInt32 || logical_type is UInt64;
            &&& made is Ok <==> in_range(number, logical_type) && !(constructor && unsigned && sign
                == NumericSign::Negative)
            &&& made matches Ok(literal) ==> literal.ty() == logical_type && constant_number(
                literal,
            ) == Some(number)
        }),
{
}

/// The greatest whole number up to which a type of numbers holds all of them.
pub open spec fn holds_up_to(logical_type: LogicalType) -> int {
    match logical_type {
        LogicalType::Int32 => 0x7fff_ffff,
        LogicalType::UInt32 => 0xffff_ffff,
        LogicalType::Int64 => 0x7fff_ffff_ffff_ffff,
        LogicalType::UInt64 => 0xffff_ffff_ffff_ffff,
        LogicalType::Float32 => 0x100_0000,
        LogicalType::Float64 => 0x20_0000_0000_0000,
        _ => -1,
    }
}

/// Whether a type of numbers holds negative ones.
pub open spec fn holds_negatives(logical_type: LogicalType) -> bool {
    ||| logical_type is Int32 || logical_type is Int64
    ||| logical_type is Float32 || logical_type is Float64
}

/// Whether a type of numbers holds fractions.
pub open spec fn holds_fractions(logical_type: LogicalType) -> bool {
    logical_type is Float32 || logical_type is Float64
}

/// A type widens only to one that holds all its values, and to every wider one of its own kind. The
/// common type of two types is one that both widen to, and itself widens to each other such type.
pub proof fn common_types_are_the_least(
    left: LogicalType,
    right: LogicalType,
    target: LogicalType,
)
    ensures
        widens(left, target) && left != target ==> {
            &&& holds_up_to(left) >= 0
            &&& holds_up_to(left) <= holds_up_to(target)
            &&& holds_negatives(left) ==> holds_negatives(target)
            &&& holds_fractions(left) ==> holds_fractions(target)
        },
        0 <= holds_up_to(left) <= holds_up_to(target) && holds_negatives(left) == holds_negatives(
            target,
        ) && holds_fractions(left) == holds_fractions(target) ==> widens(left, target),
        0 <= holds_up_to(left) <= holds_up_to(LogicalType::Float64) ==> widens(
            left,
            LogicalType::Float64,
        ),
        common_type(left, right) matches Some(common) ==> holds_up_to(common) >= 0 && widens(
            left,
            common,
        ) && widens(right, common),
        holds_up_to(target) >= 0 && widens(left, target) && widens(right, target) ==> common_type(
            left,
            right,
        ) is Some && widens(common_type(left, right)->0, target),
{
}

/// A cast is refused only between two different types neither of which is text or JSON and which are
/// not both numbers. What is cast may be null exactly where the operand may be, or where the cast
/// gives null instead of failing, or where the operand is JSON, which may hold a null.
pub proof fn casts_are_null_where_they_may_fail(cast: ast::CastExpression, operand: Expression)
    requires
        !(operand.kind matches ExpressionKind::Literal(literal) && literal is Null),
    ensures
        match typed_cast(cast, operand) {
            Ok(made) => {
                &&& same_type(cast.target, made.logical_type)
                &&& made.nullability == Nullability::Nullable <==> cast.kind is NullOnFailure
                    || operand.logical_type == LogicalType::Json || operand.nullability
                    == Nullability::Nullable
                &&& match made.kind {
                    ExpressionKind::Cast { kind, expression, .. } => *expression == operand && (
                    kind is NullOnFailure <==> cast.kind is NullOnFailure) && !(kind is Lossless),
                    _ => false,
                }
            },
            Err(e) => {
                &&& e is CastInvalid
                &&& !same_type(cast.target, operand.logical_type)
                &&& !(cast.target is Json || cast.target is Utf8)
                &&& operand.logical_type != LogicalType::Json && operand.logical_type
                    != LogicalType::Utf8
                &&& holds_up_to(operand.logical_type) < 0 || cast.target is Bool || cast.target
                    is Datetime || cast.target is Eid
            },
        },
        typed_cast(cast, operand) is Ok && !same_type(cast.target, operand.logical_type)
            && operand.logical_type != LogicalType::Json && operand.logical_type
            != LogicalType::Utf8 && !(cast.target is Json) && !(cast.target is Utf8)
            ==> holds_up_to(operand.logical_type) >= 0 && !(cast.target is Bool) && !(cast.target
            is Datetime) && !(cast.target is Eid),
{
}

/// Whether values of a type have an order.
pub open spec fn is_ordered_type(logical_type: LogicalType) -> bool {
    logical_type != LogicalType::Bool && logical_type != LogicalType::Json
}

/// Whether two values can be put together by an operator: conditions by `and` and `or`, numbers of
/// which one type holds all by arithmetic, and such numbers, or else values of one type, by a
/// comparison. Conditions are compared for equality alone, and JSON is not compared.
pub open spec fn fit(operator: ast::BinaryOperator, left: LogicalType, right: LogicalType) -> bool {
    let numbers = holds_up_to(left) >= 0 && holds_up_to(right) >= 0;
    match operator {
        ast::BinaryOperator::And | ast::BinaryOperator::Or => left == LogicalType::Bool && right
            == LogicalType::Bool,
        ast::BinaryOperator::Add
        | ast::BinaryOperator::Subtract
        | ast::BinaryOperator::Multiply
        | ast::BinaryOperator::Divide => numbers && common_type(left, right) is Some,
        ast::BinaryOperator::Equal | ast::BinaryOperator::NotEqual => if numbers {
            common_type(left, right) is Some
        } else {
            left == right && left != LogicalType::Json
        },
        _ => if numbers {
            common_type(left, right) is Some
        } else {
            left == right && is_ordered_type(left)
        },
    }
}

/// An operator on values that are not both constants is accepted exactly where its operands fit. The
/// result of arithmetic is a number of their common type, any other result a condition, and it may
/// be null exactly where one of the operands may be.
pub proof fn operators_take_what_fits(
    operator: ast::BinaryOperator,
    left: Expression,
    right: Expression,
    span: Span,
    facts: FloatFacts,
)
    requires
        !(left.kind is Literal) || !(right.kind is Literal),
        left.kind matches ExpressionKind::Literal(literal) ==> left.nullability == literal.null()
            && left.logical_type == literal.ty(),
        right.kind matches ExpressionKind::Literal(literal) ==> right.nullability == literal.null()
            && right.logical_type == literal.ty(),
    ensures
        typed_binary(operator, left, right, span, facts) is Ok <==> fit(
            operator,
            left.logical_type,
            right.logical_type,
        ),
        typed_binary(operator, left, right, span, facts) matches Ok(made) ==> {
            &&& made.nullability == Nullability::Nullable <==> left.nullability
                == Nullability::Nullable || right.nullability == Nullability::Nullable
            &&& if operator is Add || operator is Subtract || operator is Multiply || operator
                is Divide {
                Some(made.logical_type) == common_type(left.logical_type, right.logical_type)
            } else {
                made.logical_type == LogicalType::Bool
            }
        },
{
}

/// A minus sign is taken by numbers that have negative ones, and `not` by conditions. Either keeps
/// the type of its operand and whether it may be null.
pub proof fn prefix_operators_keep_the_type(
    operator: ast::UnaryOperator,
    operand: Expression,
    span: Span,
)
    requires
        !(operand.kind is Literal),
    ensures
        typed_unary(operator, operand, span) is Ok <==> match operator {
            ast::UnaryOperator::Not => operand.logical_type == LogicalType::Bool,
            ast::UnaryOperator::Negate => holds_negatives(operand.logical_type),
        },
        typed_unary(operator, operand, span) matches Ok(made) ==> made.logical_type
            == operand.logical_type && made.nullability == operand.nullability,
{
}

/// Whether no field has this name.
pub open spec fn names_no_field(fields: Seq<Field>, name: Seq<char>) -> bool {
    forall|i: int| 0 <= i < fields.len() ==> (#[trigger] fields[i]).name@ != name
}

pub(crate) proof fn lemma_first_named(fields: Seq<Field>, name: Seq<char>, from: int)
    requires
        0 <= from <= fields.len(),
    ensures
        match field_named(fields, name, from) {
            None => forall|i: int|
                from <= i < fields.len() ==> (#[trigger] fields[i]).name@ != name,
            Some(field) => field.name@ == name && exists|i: int|
                #![trigger fields[i]]
                from <= i < fields.len() && fields[i] == field && forall|j: int|
                    from <= j < i ==> (#[trigger] fields[j]).name@ != name,
        },
    decreases fields.len() - from,
{
    if from < fields.len() {
        if fields[from].name@ == name {
            assert(fields[from] == field_named(fields, name, from)->0);
        } else {
            lemma_first_named(fields, name, from + 1);
            if let Some(field) = field_named(fields, name, from) {
                let i = choose|i: int|
                    #![trigger fields[i]]
                    from + 1 <= i < fields.len() && fields[i] == field && forall|j: int|
                        from + 1 <= j < i ==> (#[trigger] fields[j]).name@ != name;
                assert(fields[i] == field);
            }
        }
    }
}

/// A reference is to the first field with its name. Only a name that no field has, and that is not
/// one of the system's, is looked up in the remainder, if there is one, and only that is warned of,
/// once and where the reference stands. Where there is none either, the reference is refused.
pub proof fn references_are_resolved_by_name(reference: FieldReference, fields: Seq<Field>)
    ensures
        match typed_field(reference, fields) {
            Ok(made) => match made.kind {
                ExpressionKind::Field(field) => {
                    &&& reference_warnings(reference, fields).len() == 0
                    &&& made.logical_type == field.logical_type
                    &&& made.nullability == field.nullability
                    &&& exists|i: int|
                        #![trigger fields[i]]
                        0 <= i < fields.len() && fields[i] == field && field.name@
                            == reference.name()@ && forall|j: int|
                            0 <= j < i ==> (#[trigger] fields[j]).name@ != reference.name()@
                },
                ExpressionKind::Remainder { function, remainder, key } => {
                    &&& reference is User
                    &&& names_no_field(fields, reference.name()@)
                    &&& function is Value && key@ == reference.name()@
                    &&& remainder.name@ == REMAINDER_FIELD_NAME@
                    &&& made.nullability == Nullability::Nullable
                    &&& reference_warnings(reference, fields).len() == 1
                    &&& reference_warnings(reference, fields)[0].span == Some(reference.place())
                    &&& reference_warnings(reference, fields)[0].severity is Warning
                },
                _ => false,
            },
            Err(e) => {
                &&& names_no_field(fields, reference.name()@)
                &&& reference is User ==> names_no_field(fields, REMAINDER_FIELD_NAME@)
                &&& e is FieldNotFound
                &&& reference_warnings(reference, fields).len() == 0
            },
        },
{
    lemma_first_named(fields, reference.name()@, 0);
    lemma_first_named(fields, REMAINDER_FIELD_NAME@, 0);
}

/// Whether a reference stands in an expression.
pub open spec fn refers_to(expression: ast::Expression, reference: FieldReference) -> bool
    decreases expression,
{
    match expression.kind {
        ast::ExpressionKind::Field(found) => found == reference,
        ast::ExpressionKind::Cast(cast) => refers_to(*cast.expression, reference),
        ast::ExpressionKind::Unary { operand, .. } => refers_to(*operand, reference),
        ast::ExpressionKind::Binary { left, right, .. } => refers_to(*left, reference) || refers_to(
            *right,
            reference,
        ),
        _ => false,
    }
}

/// An expression is warned of exactly for the references in it that are looked up in the remainder.
pub proof fn warnings_are_for_references(
    expression: ast::Expression,
    fields: Seq<Field>,
    warning: DiagnosticView,
)
    ensures
        warnings_of(expression, fields).contains(warning) <==> exists|reference: FieldReference|
            #[trigger]
            refers_to(expression, reference) && reference_warnings(reference, fields).contains(
                warning,
            ),
{
    if warnings_of(expression, fields).contains(warning) {
        let reference = lemma_warned_of(expression, fields, warning);
        assert(refers_to(expression, reference));
    }
    if exists|reference: FieldReference| #[trigger]
        refers_to(expression, reference) && reference_warnings(reference, fields).contains(
            warning,
        ) {
        let reference = choose|reference: FieldReference| #[trigger]
            refers_to(expression, reference) && reference_warnings(reference, fields).contains(
                warning,
            );
        lemma_is_warned_of(expression, fields, warning, reference);
    }
}

proof fn lemma_warned_of(
    expression: ast::Expression,
    fields: Seq<Field>,
    warning: DiagnosticView,
) -> (reference: FieldReference)
    requires
        warnings_of(expression, fields).contains(warning),
    ensures
        refers_to(expression, reference),
        reference_warnings(reference, fields).contains(warning),
    decreases expression,
{
    match expression.kind {
        ast::ExpressionKind::Field(reference) => reference,
        ast::ExpressionKind::Cast(cast) => lemma_warned_of(*cast.expression, fields, warning),
        ast::ExpressionKind::Unary { operand, .. } => lemma_warned_of(*operand, fields, warning),
        ast::ExpressionKind::Binary { left, right, .. } => {
            let first = warnings_of(*left, fields);
            let second = warnings_of(*right, fields);
            let all = first + second;
            let i = choose|i: int| 0 <= i < all.len() && all[i] == warning;
            if i < first.len() {
                assert(first[i] == warning);
                lemma_warned_of(*left, fields, warning)
            } else {
                assert(second[i - first.len()] == warning);
                lemma_warned_of(*right, fields, warning)
            }
        },
        _ => arbitrary(),
    }
}

proof fn lemma_is_warned_of(
    expression: ast::Expression,
    fields: Seq<Field>,
    warning: DiagnosticView,
    reference: FieldReference,
)
    requires
        refers_to(expression, reference),
        reference_warnings(reference, fields).contains(warning),
    ensures
        warnings_of(expression, fields).contains(warning),
    decreases expression,
{
    match expression.kind {
        ast::ExpressionKind::Cast(cast) => {
            lemma_is_warned_of(*cast.expression, fields, warning, reference);
        },
        ast::ExpressionKind::Unary { operand, .. } => {
            lemma_is_warned_of(*operand, fields, warning, reference);
        },
        ast::ExpressionKind::Binary { left, right, .. } => {
            let first = warnings_of(*left, fields);
            let second = warnings_of(*right, fields);
            let all = first + second;
            if refers_to(*left, reference) {
                lemma_is_warned_of(*left, fields, warning, reference);
                let i = choose|i: int| 0 <= i < first.len() && first[i] == warning;
                assert(all[i] == warning);
            } else {
                lemma_is_warned_of(*right, fields, warning, reference);
                let i = choose|i: int| 0 <= i < second.len() && second[i] == warning;
                assert(all[first.len() + i] == warning);
            }
        },
        _ => {},
    }
}

/// A constant that is widened stays the same number: a whole number as one of a wider type or as the
/// fraction of its magnitude and its sign, a fraction as itself. A null stays null.
pub proof fn widened_constants_keep_their_value(literal: Literal, target: LogicalType)
    requires
        widens(literal.ty(), target),
        literal.ty() != target,
    ensures
        widened(literal, target) matches Some(made) && made.ty() == target && {
            ||| literal is Null && made is Null
            ||| constant_number(literal) is Some && constant_number(made) == constant_number(
                literal,
            )
            ||| match made {
                Literal::Float64(constant) => match constant_number(literal) {
                    Some(number) => constant.magnitude == FloatMagnitude::Integer(
                        (if number < 0 {
                            -number
                        } else {
                            number
                        }) as u64,
                    ) && (constant.negative <==> number < 0) && !constant.single,
                    None => literal == Literal::Float32(constant),
                },
                _ => false,
            }
        },
{
}

} // verus!
