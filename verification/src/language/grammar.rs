//! The grammar of queries, over their tokens.
//!
//! Each rule is a function of the tokens and a place among them. It gives what the rule matches
//! there and the place behind it, or the place of the first token that does not fit.

use vstd::prelude::*;

use crate::language::ast::{
    AggregateCall, AggregateFunction, BinaryOperator, BoundView, CastExpression, CastKind,
    ComputedProjection, Constructor, ConstructorKind, Expression, ExpressionKind, FieldReference,
    Identifier, Literal, LiteralKind, LogicalType, Magnitude, Measure, NumericLiteralKind,
    NumericSign, NumericType, Projection, QueryView, RemainderExpression, RemainderFunction,
    SignedIntegerLiteral, SignedNumericLiteral, SortDirection, SortItem, SourceView, StageView,
    StepView, StringLiteral, SystemIdentifier, TimeDirection, TimeOperation, TimeOperationKind,
    TimeUnit, TimeView, UnaryOperator,
};
use crate::language::lexer::Token;
use crate::language::span::Span;

verus! {

/// A token, where it stands, and how it is shown.
#[derive(Debug)]
pub struct Lexeme {
    pub token: Token,
    pub span: Span,
    pub word: String,
}

/// Whether a token stands at a place.
pub open spec fn stands(tokens: Seq<Lexeme>, at: int, token: Token) -> bool {
    0 <= at < tokens.len() && tokens[at].token == token
}

/// From where the first of some tokens begins to where the last of them ends.
pub open spec fn span_of(tokens: Seq<Lexeme>, start: int, end: int) -> Span {
    Span { start: tokens[start].span.start, end: tokens[end - 1].span.end }
}

/// Whether a keyword is a name where a name is expected.
pub open spec fn is_contextual(token: Token) -> bool {
    token is KeywordSource || token is KeywordFilter || token is KeywordProject
        || token is KeywordSort || token is KeywordTake || token is KeywordSummarize
        || token is KeywordSecond || token is KeywordMinute || token is KeywordHour
        || token is KeywordDay
}

/// A name.
pub open spec fn identifier_at(tokens: Seq<Lexeme>, at: int) -> Result<(Identifier, int), int> {
    if !(0 <= at < tokens.len()) {
        Err(at)
    } else {
        let span = tokens[at].span;
        match tokens[at].token {
            Token::Identifier(value) => Ok((Identifier { value, span }, at + 1)),
            Token::QuotedIdentifier(value) => Ok((Identifier { value, span }, at + 1)),
            token => if is_contextual(token) {
                Ok((Identifier { value: tokens[at].word, span }, at + 1))
            } else {
                Err(at)
            },
        }
    }
}

/// The name of a field.
pub open spec fn field_at(tokens: Seq<Lexeme>, at: int) -> Result<(FieldReference, int), int> {
    if !(0 <= at < tokens.len()) {
        Err(at)
    } else {
        match tokens[at].token {
            Token::SystemIdentifier(value) => Ok(
                (
                    FieldReference::System(SystemIdentifier { value, span: tokens[at].span }),
                    at + 1,
                ),
            ),
            _ => match identifier_at(tokens, at) {
                Ok((identifier, next)) => Ok((FieldReference::User(identifier), next)),
                Err(place) => Err(place),
            },
        }
    }
}

/// A string.
pub open spec fn string_at(tokens: Seq<Lexeme>, at: int) -> Result<(StringLiteral, int), int> {
    if !(0 <= at < tokens.len()) {
        Err(at)
    } else {
        match tokens[at].token {
            Token::StringLiteral(value) => Ok(
                (StringLiteral { value, span: tokens[at].span }, at + 1),
            ),
            _ => Err(at),
        }
    }
}

/// A string in parentheses.
pub open spec fn enclosed_string_at(tokens: Seq<Lexeme>, at: int) -> Result<
    (StringLiteral, int),
    int,
> {
    if !stands(tokens, at, Token::LeftParenthesis) {
        Err(at)
    } else {
        match string_at(tokens, at + 1) {
            Err(place) => Err(place),
            Ok((value, next)) => if stands(tokens, next, Token::RightParenthesis) {
                Ok((value, next + 1))
            } else {
                Err(next)
            },
        }
    }
}

/// Whether a minus sign stands at a place, and the place behind it.
pub open spec fn sign_at(tokens: Seq<Lexeme>, at: int) -> (NumericSign, int) {
    if stands(tokens, at, Token::OperatorSubtract) {
        (NumericSign::Negative, at + 1)
    } else {
        (NumericSign::NonNegative, at)
    }
}

/// An integer with its sign.
pub open spec fn signed_integer_at(tokens: Seq<Lexeme>, at: int) -> Result<
    (SignedIntegerLiteral, int),
    int,
> {
    let (sign, place) = sign_at(tokens, at);
    if !(0 <= place < tokens.len()) {
        Err(place)
    } else {
        match tokens[place].token {
            Token::Integer(magnitude) => Ok(
                (
                    SignedIntegerLiteral { sign, magnitude, span: span_of(tokens, at, place + 1) },
                    place + 1,
                ),
            ),
            _ => Err(place),
        }
    }
}

/// A number with its sign.
pub open spec fn signed_number_at(tokens: Seq<Lexeme>, at: int) -> Result<
    (SignedNumericLiteral, int),
    int,
> {
    let (sign, place) = sign_at(tokens, at);
    if !(0 <= place < tokens.len()) {
        Err(place)
    } else {
        let span = span_of(tokens, at, place + 1);
        match tokens[place].token {
            Token::Integer(magnitude) => Ok(
                (
                    SignedNumericLiteral {
                        sign,
                        kind: NumericLiteralKind::Integer(magnitude),
                        span,
                    },
                    place + 1,
                ),
            ),
            Token::FloatingPoint(text) => Ok(
                (
                    SignedNumericLiteral {
                        sign,
                        kind: NumericLiteralKind::FloatingPoint(text),
                        span,
                    },
                    place + 1,
                ),
            ),
            _ => Err(place),
        }
    }
}

/// The integer type that a keyword names.
pub open spec fn integer_type(token: Token) -> Option<NumericType> {
    match token {
        Token::KeywordInt32 => Some(NumericType::Int32),
        Token::KeywordInt64 => Some(NumericType::Int64),
        Token::KeywordUInt32 => Some(NumericType::UInt32),
        Token::KeywordUInt64 => Some(NumericType::UInt64),
        _ => None,
    }
}

/// The floating-point type that a keyword names.
pub open spec fn floating_type(token: Token) -> Option<NumericType> {
    match token {
        Token::KeywordFloat32 => Some(NumericType::Float32),
        Token::KeywordFloat64 => Some(NumericType::Float64),
        _ => None,
    }
}

/// The type that a keyword names.
pub open spec fn logical_type(token: Token) -> Option<LogicalType> {
    match token {
        Token::KeywordBool => Some(LogicalType::Bool),
        Token::KeywordInt32 => Some(LogicalType::Int32),
        Token::KeywordInt64 => Some(LogicalType::Int64),
        Token::KeywordUInt32 => Some(LogicalType::UInt32),
        Token::KeywordUInt64 => Some(LogicalType::UInt64),
        Token::KeywordFloat32 => Some(LogicalType::Float32),
        Token::KeywordFloat64 => Some(LogicalType::Float64),
        Token::KeywordUtf8 => Some(LogicalType::Utf8),
        Token::KeywordDatetime => Some(LogicalType::Datetime),
        Token::KeywordEid => Some(LogicalType::Eid),
        Token::KeywordJson => Some(LogicalType::Json),
        _ => None,
    }
}

/// A number in parentheses behind the name of a numeric type. Behind that of an integer type it
/// is an integer.
pub open spec fn numeric_constructor_at(
    tokens: Seq<Lexeme>,
    at: int,
    target: NumericType,
    integer: bool,
) -> Result<(Expression, int), int> {
    if !stands(tokens, at + 1, Token::LeftParenthesis) {
        Err(at + 1)
    } else {
        match signed_number_at(tokens, at + 2) {
            Err(place) => Err(place),
            Ok((literal, next)) => if integer && literal.kind is FloatingPoint {
                Err(next - 1)
            } else if !stands(tokens, next, Token::RightParenthesis) {
                Err(next)
            } else {
                let span = span_of(tokens, at, next + 1);
                Ok(
                    (
                        Expression {
                            kind: ExpressionKind::Constructor(
                                Constructor {
                                    kind: ConstructorKind::Numeric { target, literal },
                                    span,
                                },
                            ),
                            span,
                        },
                        next + 1,
                    ),
                )
            },
        }
    }
}

/// A string in parentheses behind `datetime` or `eid`.
pub open spec fn text_constructor_at(tokens: Seq<Lexeme>, at: int, eid: bool) -> Result<
    (Expression, int),
    int,
> {
    match enclosed_string_at(tokens, at + 1) {
        Err(place) => Err(place),
        Ok((value, next)) => {
            let span = span_of(tokens, at, next);
            let kind = if eid {
                ConstructorKind::Eid(value)
            } else {
                ConstructorKind::Datetime(value)
            };
            Ok(
                (
                    Expression {
                        kind: ExpressionKind::Constructor(Constructor { kind, span }),
                        span,
                    },
                    next,
                ),
            )
        },
    }
}

/// A string in parentheses behind `rest` or `rest_exists`.
pub open spec fn remainder_at(tokens: Seq<Lexeme>, at: int, function: RemainderFunction) -> Result<
    (Expression, int),
    int,
> {
    match enclosed_string_at(tokens, at + 1) {
        Err(place) => Err(place),
        Ok((key, next)) => {
            let span = span_of(tokens, at, next);
            Ok(
                (
                    Expression {
                        kind: ExpressionKind::Remainder(
                            RemainderExpression { function, key, span },
                        ),
                        span,
                    },
                    next,
                ),
            )
        },
    }
}

/// The literal that a token is.
pub open spec fn literal_of(token: Token) -> Option<LiteralKind> {
    match token {
        Token::Integer(value) => Some(LiteralKind::Integer(value)),
        Token::FloatingPoint(text) => Some(LiteralKind::FloatingPoint(text)),
        Token::StringLiteral(text) => Some(LiteralKind::String(text)),
        Token::KeywordNull => Some(LiteralKind::Null),
        Token::KeywordTrue => Some(LiteralKind::Boolean(true)),
        Token::KeywordFalse => Some(LiteralKind::Boolean(false)),
        _ => None,
    }
}

/// The operator of a level of precedence that a token is. A higher level binds less.
pub open spec fn operator_of(token: Token, level: nat) -> Option<BinaryOperator> {
    if level == 1 {
        match token {
            Token::OperatorMultiply => Some(BinaryOperator::Multiply),
            Token::OperatorDivide => Some(BinaryOperator::Divide),
            _ => None,
        }
    } else if level == 2 {
        match token {
            Token::OperatorAdd => Some(BinaryOperator::Add),
            Token::OperatorSubtract => Some(BinaryOperator::Subtract),
            _ => None,
        }
    } else if level == 3 {
        match token {
            Token::OperatorEqual => Some(BinaryOperator::Equal),
            Token::OperatorNotEqual => Some(BinaryOperator::NotEqual),
            Token::OperatorGreaterThanOrEqual => Some(BinaryOperator::GreaterThanOrEqual),
            Token::OperatorGreaterThan => Some(BinaryOperator::GreaterThan),
            Token::OperatorLessThanOrEqual => Some(BinaryOperator::LessThanOrEqual),
            Token::OperatorLessThan => Some(BinaryOperator::LessThan),
            _ => None,
        }
    } else if level == 4 {
        match token {
            Token::KeywordAnd => Some(BinaryOperator::And),
            _ => None,
        }
    } else {
        match token {
            Token::KeywordOr => Some(BinaryOperator::Or),
            _ => None,
        }
    }
}

/// The level of precedence of a whole expression.
pub const EXPRESSION_LEVEL: u8 = 5;

/// The level of the comparisons, of which none follows another.
pub const COMPARISON_LEVEL: u8 = 3;

/// An operand that no operator splits.
pub open spec fn primary_at(tokens: Seq<Lexeme>, at: int) -> Result<(Expression, int), int>
    decreases tokens.len() - at, 0nat,
{
    if !(0 <= at < tokens.len()) {
        Err(at)
    } else {
        let token = tokens[at].token;
        let span = tokens[at].span;
        match (integer_type(token), floating_type(token), literal_of(token)) {
            (Some(target), _, _) => numeric_constructor_at(tokens, at, target, true),
            (None, Some(target), _) => numeric_constructor_at(tokens, at, target, false),
            (None, None, Some(kind)) => Ok(
                (
                    Expression { kind: ExpressionKind::Literal(Literal { kind, span }), span },
                    at + 1,
                ),
            ),
            (None, None, None) => match token {
                Token::KeywordDatetime => text_constructor_at(tokens, at, false),
                Token::KeywordEid => text_constructor_at(tokens, at, true),
                Token::KeywordRest => remainder_at(tokens, at, RemainderFunction::Value),
                Token::KeywordRestExists => remainder_at(tokens, at, RemainderFunction::Exists),
                Token::KeywordCast => cast_at(tokens, at, CastKind::Strict),
                Token::KeywordTryCast => cast_at(tokens, at, CastKind::NullOnFailure),
                Token::LeftParenthesis => match level_at(
                    tokens,
                    at + 1,
                    EXPRESSION_LEVEL as nat,
                ) {
                    Err(place) => Err(place),
                    Ok((expression, next)) => if stands(tokens, next, Token::RightParenthesis) {
                        Ok(
                            (
                                Expression {
                                    kind: expression.kind,
                                    span: span_of(tokens, at, next + 1),
                                },
                                next + 1,
                            ),
                        )
                    } else {
                        Err(next)
                    },
                },
                _ => match field_at(tokens, at) {
                    Err(place) => Err(place),
                    Ok((field, next)) => Ok(
                        (
                            Expression {
                                kind: ExpressionKind::Field(field),
                                span: field.place(),
                            },
                            next,
                        ),
                    ),
                },
            },
        }
    }
}

/// An expression, `as` and a type, in parentheses behind `cast` or `try_cast`.
pub open spec fn cast_at(tokens: Seq<Lexeme>, at: int, kind: CastKind) -> Result<
    (Expression, int),
    int,
>
    decreases tokens.len() - at - 1, 8nat,
{
    if !(0 <= at && stands(tokens, at + 1, Token::LeftParenthesis)) {
        Err(at + 1)
    } else {
        match level_at(tokens, at + 2, EXPRESSION_LEVEL as nat) {
            Err(place) => Err(place),
            Ok((expression, next)) => if !stands(tokens, next, Token::KeywordAs) {
                Err(next)
            } else if !(0 <= next + 1 < tokens.len()) {
                Err(next + 1)
            } else {
                match logical_type(tokens[next + 1].token) {
                    None => Err(next + 1),
                    Some(target) => if !stands(tokens, next + 2, Token::RightParenthesis) {
                        Err(next + 2)
                    } else {
                        let span = span_of(tokens, at, next + 3);
                        Ok(
                            (
                                Expression {
                                    kind: ExpressionKind::Cast(
                                        CastExpression {
                                            kind,
                                            expression: Box::new(expression),
                                            target,
                                            span,
                                        },
                                    ),
                                    span,
                                },
                                next + 3,
                            ),
                        )
                    },
                }
            },
        }
    }
}

/// An operand, behind at most one prefix operator.
pub open spec fn unary_at(tokens: Seq<Lexeme>, at: int) -> Result<(Expression, int), int>
    decreases tokens.len() - at, 1nat,
{
    let operator = if stands(tokens, at, Token::KeywordNot) {
        Some(UnaryOperator::Not)
    } else if stands(tokens, at, Token::OperatorSubtract) {
        Some(UnaryOperator::Negate)
    } else {
        None
    };
    match operator {
        None => primary_at(tokens, at),
        Some(operator) => match primary_at(tokens, at + 1) {
            Err(place) => Err(place),
            Ok((operand, next)) => Ok(
                (
                    Expression {
                        kind: ExpressionKind::Unary { operator, operand: Box::new(operand) },
                        span: span_of(tokens, at, next),
                    },
                    next,
                ),
            ),
        },
    }
}

/// Operands of the level below, joined from the left by the operators of a level.
pub open spec fn level_at(tokens: Seq<Lexeme>, at: int, level: nat) -> Result<(Expression, int), int>
    decreases tokens.len() - at, level + 2,
{
    if level == 0 {
        unary_at(tokens, at)
    } else {
        match level_at(tokens, at, (level - 1) as nat) {
            Err(place) => Err(place),
            Ok((left, next)) => if !(at < next <= tokens.len()) {
                Err(at)
            } else {
                joined_from(tokens, at, next, left, level)
            },
        }
    }
}

/// What is left of an expression of a level that began at `start` with `left`.
pub open spec fn joined_from(
    tokens: Seq<Lexeme>,
    start: int,
    at: int,
    left: Expression,
    level: nat,
) -> Result<(Expression, int), int>
    decreases tokens.len() - at, 0nat,
{
    if !(0 <= at < tokens.len()) || level == 0 {
        Ok((left, at))
    } else {
        match operator_of(tokens[at].token, level) {
            None => Ok((left, at)),
            Some(operator) => match level_at(tokens, at + 1, (level - 1) as nat) {
                Err(place) => Err(place),
                Ok((right, next)) => {
                    let joined = Expression {
                        kind: ExpressionKind::Binary {
                            operator,
                            left: Box::new(left),
                            right: Box::new(right),
                        },
                        span: span_of(tokens, start, next),
                    };
                    if !(at < next <= tokens.len()) {
                        Err(at)
                    } else if level == COMPARISON_LEVEL {
                        Ok((joined, next))
                    } else {
                        joined_from(tokens, start, next, joined, level)
                    }
                },
            },
        }
    }
}

/// An expression.
pub open spec fn expression_at(tokens: Seq<Lexeme>, at: int) -> Result<(Expression, int), int> {
    level_at(tokens, at, EXPRESSION_LEVEL as nat)
}

/// The unit of time that a keyword names.
pub open spec fn time_unit(token: Token) -> Option<TimeUnit> {
    match token {
        Token::KeywordSecond => Some(TimeUnit::Second),
        Token::KeywordMinute => Some(TimeUnit::Minute),
        Token::KeywordHour => Some(TimeUnit::Hour),
        Token::KeywordDay => Some(TimeUnit::Day),
        _ => None,
    }
}

/// The unit that a name with an at sign truncates to.
pub open spec fn truncation_unit(token: Token) -> Option<TimeUnit> {
    match token {
        Token::SystemIdentifier(text) => if text@ == "@s"@ {
            Some(TimeUnit::Second)
        } else if text@ == "@m"@ {
            Some(TimeUnit::Minute)
        } else if text@ == "@h"@ {
            Some(TimeUnit::Hour)
        } else if text@ == "@d"@ {
            Some(TimeUnit::Day)
        } else {
            None
        },
        _ => None,
    }
}

/// The unit of time at a place.
pub open spec fn unit_at(tokens: Seq<Lexeme>, at: int) -> Result<(TimeUnit, int), int> {
    if !(0 <= at < tokens.len()) {
        Err(at)
    } else {
        match time_unit(tokens[at].token) {
            Some(unit) => Ok((unit, at + 1)),
            None => Err(at),
        }
    }
}

/// Whether a step of a relative time begins at a place.
pub open spec fn operation_begins(tokens: Seq<Lexeme>, at: int) -> bool {
    &&& 0 <= at < tokens.len()
    &&& tokens[at].token is At || tokens[at].token is OperatorAdd
        || tokens[at].token is OperatorSubtract || truncation_unit(tokens[at].token) is Some
}

/// A shift in time: a direction, a number of units that is one if it is left out, and a unit.
pub open spec fn shift_at(tokens: Seq<Lexeme>, at: int, direction: TimeDirection) -> Result<
    (TimeOperation, int),
    int,
> {
    let number = if 0 <= at + 1 < tokens.len() {
        match tokens[at + 1].token {
            Token::Integer(value) => Some(value),
            _ => None,
        }
    } else {
        None
    };
    let place = if number is Some {
        at + 2
    } else {
        at + 1
    };
    if number == Some(0u64) {
        Err(at + 1)
    } else {
        match unit_at(tokens, place) {
            Err(place) => Err(place),
            Ok((unit, next)) => Ok(
                (
                    TimeOperation {
                        kind: TimeOperationKind::Shift {
                            direction,
                            magnitude: match number {
                                Some(value) => Magnitude(value),
                                None => Magnitude(1),
                            },
                            unit,
                        },
                        span: span_of(tokens, at, next),
                    },
                    next,
                ),
            ),
        }
    }
}

/// A step of a relative time.
pub open spec fn operation_at(tokens: Seq<Lexeme>, at: int) -> Result<(TimeOperation, int), int> {
    if !operation_begins(tokens, at) {
        Err(at)
    } else {
        match tokens[at].token {
            Token::OperatorAdd => shift_at(tokens, at, TimeDirection::Forward),
            Token::OperatorSubtract => shift_at(tokens, at, TimeDirection::Backward),
            Token::At => match unit_at(tokens, at + 1) {
                Err(place) => Err(place),
                Ok((unit, next)) => Ok(
                    (
                        TimeOperation {
                            kind: TimeOperationKind::Truncate(unit),
                            span: span_of(tokens, at, next),
                        },
                        next,
                    ),
                ),
            },
            token => match truncation_unit(token) {
                None => Err(at),
                Some(unit) => Ok(
                    (
                        TimeOperation {
                            kind: TimeOperationKind::Truncate(unit),
                            span: span_of(tokens, at, at + 1),
                        },
                        at + 1,
                    ),
                ),
            },
        }
    }
}

/// The steps of a relative time that go on at a place.
pub open spec fn operations_from(
    tokens: Seq<Lexeme>,
    at: int,
    found: Seq<TimeOperation>,
) -> Result<(Seq<TimeOperation>, int), int>
    decreases tokens.len() - at,
{
    if !operation_begins(tokens, at) {
        Ok((found, at))
    } else {
        match operation_at(tokens, at) {
            Err(place) => Err(place),
            Ok((operation, next)) => if !(at < next <= tokens.len()) {
                Err(at)
            } else {
                operations_from(tokens, next, found.push(operation))
            },
        }
    }
}

/// A bound of a source.
pub open spec fn time_at(tokens: Seq<Lexeme>, at: int) -> Result<(TimeView, int), int> {
    if stands(tokens, at, Token::KeywordDatetime) {
        match enclosed_string_at(tokens, at + 1) {
            Err(place) => Err(place),
            Ok((value, next)) => Ok(
                (
                    TimeView {
                        kind: BoundView::Datetime(value),
                        span: span_of(tokens, at, next),
                    },
                    next,
                ),
            ),
        }
    } else if stands(tokens, at, Token::KeywordNow) {
        Ok((TimeView { kind: BoundView::Now, span: span_of(tokens, at, at + 1) }, at + 1))
    } else if !operation_begins(tokens, at) {
        Err(at)
    } else {
        match operations_from(tokens, at, Seq::empty()) {
            Err(place) => Err(place),
            Ok((operations, next)) => Ok(
                (
                    TimeView {
                        kind: BoundView::Relative(operations),
                        span: span_of(tokens, at, next),
                    },
                    next,
                ),
            ),
        }
    }
}

/// A bound behind its keyword and an equals sign, if the keyword stands at a place.
pub open spec fn bound_at(tokens: Seq<Lexeme>, at: int, keyword: Token) -> Result<
    (Option<TimeView>, int),
    int,
> {
    if !stands(tokens, at, keyword) {
        Ok((None, at))
    } else if !stands(tokens, at + 1, Token::OperatorAssign) {
        Err(at + 1)
    } else {
        match time_at(tokens, at + 2) {
            Err(place) => Err(place),
            Ok((time, next)) => Ok((Some(time), next)),
        }
    }
}

/// The source of a query: a name, and behind it the bounds, the start first.
pub open spec fn source_at(tokens: Seq<Lexeme>, at: int) -> Result<(SourceView, int), int> {
    if !stands(tokens, at, Token::KeywordSource) {
        Err(at)
    } else {
        match identifier_at(tokens, at + 1) {
            Err(place) => Err(place),
            Ok((name, next)) => match bound_at(tokens, next, Token::KeywordStartInclusive) {
                Err(place) => Err(place),
                Ok((start_inclusive, next)) => match bound_at(
                    tokens,
                    next,
                    Token::KeywordEndExclusive,
                ) {
                    Err(place) => Err(place),
                    Ok((end_exclusive, next)) => Ok(
                        (
                            SourceView {
                                name,
                                start_inclusive,
                                end_exclusive,
                                span: span_of(tokens, at, next),
                            },
                            next,
                        ),
                    ),
                },
            },
        }
    }
}

/// One or more items with commas between them, of which `found` were read.
pub open spec fn list_from<T>(
    tokens: Seq<Lexeme>,
    at: int,
    item: spec_fn(int) -> Result<(T, int), int>,
    found: Seq<T>,
) -> Result<(Seq<T>, int), int>
    decreases tokens.len() - at,
{
    match item(at) {
        Err(place) => Err(place),
        Ok((value, next)) => if !(at < next <= tokens.len()) {
            Err(at)
        } else if stands(tokens, next, Token::Comma) {
            list_from(tokens, next + 1, item, found.push(value))
        } else {
            Ok((found.push(value), next))
        },
    }
}

/// An output field: a name, an equals sign and an expression, or the name of a field, or an
/// expression without a name.
pub open spec fn projection_at(tokens: Seq<Lexeme>, at: int) -> Result<(Projection, int), int> {
    match identifier_at(tokens, at) {
        Ok((alias, next)) if stands(tokens, next, Token::OperatorAssign) => match expression_at(
            tokens,
            next + 1,
        ) {
            Err(place) => Err(place),
            Ok((expression, next)) => Ok(
                (
                    Projection::Computed(
                        ComputedProjection {
                            alias,
                            expression,
                            span: span_of(tokens, at, next),
                        },
                    ),
                    next,
                ),
            ),
        },
        _ => match expression_at(tokens, at) {
            Err(place) => Err(place),
            Ok((expression, next)) => match expression.kind {
                ExpressionKind::Field(field) if next == at + 1 => Ok(
                    (Projection::Field(field), next),
                ),
                _ => Ok((Projection::Unaliased(expression), next)),
            },
        },
    }
}

/// A field to sort by, behind an optional direction.
pub open spec fn sort_item_at(tokens: Seq<Lexeme>, at: int) -> Result<(SortItem, int), int> {
    let (direction, place) = if stands(tokens, at, Token::OperatorAdd) {
        (SortDirection::Ascending, at + 1)
    } else if stands(tokens, at, Token::OperatorSubtract) {
        (SortDirection::Descending, at + 1)
    } else {
        (SortDirection::Ascending, at)
    };
    match field_at(tokens, place) {
        Err(place) => Err(place),
        Ok((field, next)) => Ok(
            (SortItem { field, direction, span: span_of(tokens, at, next) }, next),
        ),
    }
}

/// The function that a keyword names.
pub open spec fn aggregate_function(token: Token) -> Option<AggregateFunction> {
    match token {
        Token::KeywordCount => Some(AggregateFunction::Count),
        Token::KeywordSum => Some(AggregateFunction::Sum),
        Token::KeywordMin => Some(AggregateFunction::Min),
        Token::KeywordMax => Some(AggregateFunction::Max),
        Token::KeywordAvg => Some(AggregateFunction::Avg),
        _ => None,
    }
}

/// A function with at most one field in parentheses.
pub open spec fn aggregate_at(tokens: Seq<Lexeme>, at: int) -> Result<(AggregateCall, int), int> {
    if !(0 <= at < tokens.len()) {
        Err(at)
    } else {
        match aggregate_function(tokens[at].token) {
            None => Err(at),
            Some(function) => if !stands(tokens, at + 1, Token::LeftParenthesis) {
                Err(at + 1)
            } else {
                let (argument, place) = match field_at(tokens, at + 2) {
                    Ok((field, next)) => (Some(field), next),
                    Err(_) => (None, at + 2),
                };
                if stands(tokens, place, Token::RightParenthesis) {
                    Ok(
                        (
                            AggregateCall {
                                function,
                                argument,
                                span: span_of(tokens, at, place + 1),
                            },
                            place + 1,
                        ),
                    )
                } else {
                    Err(place)
                }
            },
        }
    }
}

/// An output field of a summary: a function, behind an optional name and an equals sign.
pub open spec fn measure_at(tokens: Seq<Lexeme>, at: int) -> Result<(Measure, int), int> {
    match identifier_at(tokens, at) {
        Ok((alias, next)) => if !stands(tokens, next, Token::OperatorAssign) {
            Err(next)
        } else {
            match aggregate_at(tokens, next + 1) {
                Err(place) => Err(place),
                Ok((aggregate, next)) => Ok(
                    (
                        Measure {
                            alias: Some(alias),
                            aggregate,
                            span: span_of(tokens, at, next),
                        },
                        next,
                    ),
                ),
            }
        },
        Err(_) => match aggregate_at(tokens, at) {
            Err(place) => Err(place),
            Ok((aggregate, next)) => Ok(
                (Measure { alias: None, aggregate, span: span_of(tokens, at, next) }, next),
            ),
        },
    }
}

/// A stage.
pub open spec fn stage_at(tokens: Seq<Lexeme>, at: int) -> Result<(StageView, int), int> {
    if !(0 <= at < tokens.len()) {
        Err(at)
    } else {
        match tokens[at].token {
            Token::KeywordFilter => match expression_at(tokens, at + 1) {
                Err(place) => Err(place),
                Ok((expression, next)) => Ok(
                    (
                        StageView {
                            kind: StepView::Filter(expression),
                            span: span_of(tokens, at, next),
                        },
                        next,
                    ),
                ),
            },
            Token::KeywordProject => match list_from(
                tokens,
                at + 1,
                |place: int| projection_at(tokens, place),
                Seq::empty(),
            ) {
                Err(place) => Err(place),
                Ok((projections, next)) => Ok(
                    (
                        StageView {
                            kind: StepView::Project(projections),
                            span: span_of(tokens, at, next),
                        },
                        next,
                    ),
                ),
            },
            Token::KeywordSort => {
                let place = if stands(tokens, at + 1, Token::KeywordBy) {
                    at + 2
                } else {
                    at + 1
                };
                match list_from(
                    tokens,
                    place,
                    |place: int| sort_item_at(tokens, place),
                    Seq::empty(),
                ) {
                    Err(place) => Err(place),
                    Ok((items, next)) => Ok(
                        (
                            StageView {
                                kind: StepView::Sort(items),
                                span: span_of(tokens, at, next),
                            },
                            next,
                        ),
                    ),
                }
            },
            Token::KeywordTake => match signed_integer_at(tokens, at + 1) {
                Err(place) => Err(place),
                Ok((value, next)) => Ok(
                    (
                        StageView { kind: StepView::Take(value), span: span_of(tokens, at, next) },
                        next,
                    ),
                ),
            },
            Token::KeywordSummarize => match list_from(
                tokens,
                at + 1,
                |place: int| measure_at(tokens, place),
                Seq::empty(),
            ) {
                Err(place) => Err(place),
                Ok((measures, next)) => match group_at(tokens, next) {
                    Err(place) => Err(place),
                    Ok((group_by, next)) => Ok(
                        (
                            StageView {
                                kind: StepView::Summarize { measures, group_by },
                                span: span_of(tokens, at, next),
                            },
                            next,
                        ),
                    ),
                },
            },
            _ => Err(at),
        }
    }
}

/// The fields behind `by`, or none.
pub open spec fn group_at(tokens: Seq<Lexeme>, at: int) -> Result<(Seq<FieldReference>, int), int> {
    if stands(tokens, at, Token::KeywordBy) {
        list_from(tokens, at + 1, |place: int| field_at(tokens, place), Seq::empty())
    } else {
        Ok((Seq::empty(), at))
    }
}

/// The stages that go on at a place, each behind a pipe.
pub open spec fn stages_from(tokens: Seq<Lexeme>, at: int, found: Seq<StageView>) -> Result<
    (Seq<StageView>, int),
    int,
>
    decreases tokens.len() - at,
{
    if !stands(tokens, at, Token::Pipe) {
        Ok((found, at))
    } else {
        match stage_at(tokens, at + 1) {
            Err(place) => Err(place),
            Ok((stage, next)) => if !(at < next <= tokens.len()) {
                Err(at)
            } else {
                stages_from(tokens, next, found.push(stage))
            },
        }
    }
}

/// The query that tokens are, or the place of the first that does not fit.
pub open spec fn query_of(tokens: Seq<Lexeme>) -> Result<QueryView, int> {
    match source_at(tokens, 0) {
        Err(place) => Err(place),
        Ok((source, next)) => match stages_from(tokens, next, Seq::empty()) {
            Err(place) => Err(place),
            Ok((stages, next)) => if next == tokens.len() {
                Ok(QueryView { source, stages, span: span_of(tokens, 0, next) })
            } else {
                Err(next)
            },
        },
    }
}

} // verus!
