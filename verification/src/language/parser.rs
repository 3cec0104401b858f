//! The parser of queries.

use vstd::prelude::*;
use vstd::string::*;

use crate::language::ast::{
    optional_time, stage_views, AggregateCall, AggregateFunction, BinaryOperator, CastExpression, CastKind,
    ComputedProjection, Constructor, ConstructorKind, Expression, ExpressionKind, FieldReference,
    Identifier, Literal, LiteralKind, LogicalType, Magnitude, Measure, NumericLiteralKind,
    NumericSign, NumericType, Projection, Query, QueryView, RemainderExpression, RemainderFunction,
    SignedIntegerLiteral, SignedNumericLiteral, SortDirection, SortItem, SourceExpression,
    SourceView, Stage, StageKind, StageView, StringLiteral, SystemIdentifier, TimeDirection,
    TimeExpression, TimeExpressionKind, TimeOperation, TimeOperationKind, TimeUnit, TimeView,
    UnaryOperator,
};
use crate::language::grammar::{
    aggregate_at, aggregate_function, bound_at, cast_at, enclosed_string_at, expression_at,
    field_at, floating_type, group_at, identifier_at, integer_type, joined_from, level_at,
    list_from, literal_of, logical_type, measure_at, numeric_constructor_at, operation_at,
    operation_begins, operations_from, operator_of, primary_at, projection_at, query_of,
    remainder_at, shift_at, sign_at, signed_integer_at, signed_number_at, sort_item_at, source_at,
    span_of, stage_at, stages_from, stands, string_at, text_constructor_at, time_at, time_unit,
    truncation_unit, unary_at, unit_at, Lexeme, COMPARISON_LEVEL, EXPRESSION_LEVEL,
};
use crate::language::lexer::{token_views, tokenizer, tokens_from, Token};
use crate::language::span::Span;
use crate::text::optional_view;

verus! {

/// Whether what was read at a place is what the grammar says.
pub open spec fn same_parse<T>(
    r: Result<(T, usize), usize>,
    tokens: Seq<Lexeme>,
    at: int,
    made: Result<(T, int), int>,
) -> bool {
    match r {
        Ok((value, next)) => made == Ok::<(T, int), int>((value, next as int)) && at < next
            <= tokens.len(),
        Err(place) => made == Err::<(T, int), int>(place as int) && place <= tokens.len(),
    }
}

/// Whether the parser asks for this token.
spec fn is_tested(token: Token) -> bool {
    token is Pipe
        || token is LeftParenthesis
        || token is RightParenthesis
        || token is Comma
        || token is OperatorAssign
        || token is OperatorAdd
        || token is OperatorSubtract
        || token is KeywordAs
        || token is KeywordBy
        || token is KeywordNot
        || token is KeywordSource
        || token is KeywordStartInclusive
        || token is KeywordEndExclusive
        || token is KeywordNow
        || token is KeywordDatetime
}

fn has_token(tokens: &Vec<Lexeme>, at: usize, token: &Token) -> (r: bool)
    requires
        is_tested(*token),
    ensures
        r == stands(tokens@, at as int, *token),
        tokens@.len() <= usize::MAX,
{
    if at >= tokens.len() {
        return false;
    }
    let found: &Token = &tokens[at].token;
    match token {
        Token::Pipe => matches!(found, Token::Pipe),
        Token::LeftParenthesis => matches!(found, Token::LeftParenthesis),
        Token::RightParenthesis => matches!(found, Token::RightParenthesis),
        Token::Comma => matches!(found, Token::Comma),
        Token::OperatorAssign => matches!(found, Token::OperatorAssign),
        Token::OperatorAdd => matches!(found, Token::OperatorAdd),
        Token::OperatorSubtract => matches!(found, Token::OperatorSubtract),
        Token::KeywordAs => matches!(found, Token::KeywordAs),
        Token::KeywordBy => matches!(found, Token::KeywordBy),
        Token::KeywordNot => matches!(found, Token::KeywordNot),
        Token::KeywordSource => matches!(found, Token::KeywordSource),
        Token::KeywordStartInclusive => matches!(found, Token::KeywordStartInclusive),
        Token::KeywordEndExclusive => matches!(found, Token::KeywordEndExclusive),
        Token::KeywordNow => matches!(found, Token::KeywordNow),
        Token::KeywordDatetime => matches!(found, Token::KeywordDatetime),
        _ => false,
    }
}

fn make_span(tokens: &Vec<Lexeme>, start: usize, end: usize) -> (r: Span)
    requires
        start < end <= tokens@.len(),
    ensures
        r == span_of(tokens@, start as int, end as int),
{
    Span { start: tokens[start].span.start, end: tokens[end - 1].span.end }
}

fn read_identifier(tokens: &Vec<Lexeme>, at: usize) -> (r: Result<(Identifier, usize), usize>)
    requires
        at <= tokens@.len(),
    ensures
        same_parse(r, tokens@, at as int, identifier_at(tokens@, at as int)),
{
    if at >= tokens.len() {
        return Err(at);
    }
    let span: Span = tokens[at].span;
    match &tokens[at].token {
        Token::Identifier(value) => Ok((Identifier { value: value.clone(), span }, at + 1)),
        Token::QuotedIdentifier(value) => Ok((Identifier { value: value.clone(), span }, at + 1)),
        Token::KeywordSource | Token::KeywordFilter | Token::KeywordProject | Token::KeywordSort
        | Token::KeywordTake | Token::KeywordSummarize | Token::KeywordSecond
        | Token::KeywordMinute | Token::KeywordHour | Token::KeywordDay => Ok(
            (Identifier { value: tokens[at].word.clone(), span }, at + 1),
        ),
        _ => Err(at),
    }
}

fn read_field(tokens: &Vec<Lexeme>, at: usize) -> (r: Result<(FieldReference, usize), usize>)
    requires
        at <= tokens@.len(),
    ensures
        same_parse(r, tokens@, at as int, field_at(tokens@, at as int)),
        at < tokens@.len() ==> (r matches Ok((_, next)) ==> next == at + 1),
{
    if at >= tokens.len() {
        return Err(at);
    }
    match &tokens[at].token {
        Token::SystemIdentifier(value) => Ok(
            (
                FieldReference::System(
                    SystemIdentifier { value: value.clone(), span: tokens[at].span },
                ),
                at + 1,
            ),
        ),
        _ => match read_identifier(tokens, at) {
            Ok((identifier, next)) => Ok((FieldReference::User(identifier), next)),
            Err(place) => Err(place),
        },
    }
}

fn read_string(tokens: &Vec<Lexeme>, at: usize) -> (r: Result<(StringLiteral, usize), usize>)
    requires
        at <= tokens@.len(),
    ensures
        same_parse(r, tokens@, at as int, string_at(tokens@, at as int)),
{
    if at >= tokens.len() {
        return Err(at);
    }
    match &tokens[at].token {
        Token::StringLiteral(value) => Ok(
            (StringLiteral { value: value.clone(), span: tokens[at].span }, at + 1),
        ),
        _ => Err(at),
    }
}

fn read_enclosed_string(tokens: &Vec<Lexeme>, at: usize) -> (r: Result<
    (StringLiteral, usize),
    usize,
>)
    requires
        at <= tokens@.len(),
    ensures
        same_parse(r, tokens@, at as int, enclosed_string_at(tokens@, at as int)),
{
    if !has_token(tokens, at, &Token::LeftParenthesis) {
        return Err(at);
    }
    match read_string(tokens, at + 1) {
        Err(place) => Err(place),
        Ok((value, next)) => if has_token(tokens, next, &Token::RightParenthesis) {
            Ok((value, next + 1))
        } else {
            Err(next)
        },
    }
}

fn read_sign(tokens: &Vec<Lexeme>, at: usize) -> (r: (NumericSign, usize))
    requires
        at <= tokens@.len(),
    ensures
        (r.0, r.1 as int) == sign_at(tokens@, at as int),
        at <= r.1 <= tokens@.len(),
{
    if has_token(tokens, at, &Token::OperatorSubtract) {
        (NumericSign::Negative, at + 1)
    } else {
        (NumericSign::NonNegative, at)
    }
}

fn read_signed_integer(tokens: &Vec<Lexeme>, at: usize) -> (r: Result<
    (SignedIntegerLiteral, usize),
    usize,
>)
    requires
        at <= tokens@.len(),
    ensures
        same_parse(r, tokens@, at as int, signed_integer_at(tokens@, at as int)),
{
    let (sign, place): (NumericSign, usize) = read_sign(tokens, at);
    if place >= tokens.len() {
        return Err(place);
    }
    match &tokens[place].token {
        Token::Integer(magnitude) => Ok(
            (
                SignedIntegerLiteral {
                    sign,
                    magnitude: *magnitude,
                    span: make_span(tokens, at, place + 1),
                },
                place + 1,
            ),
        ),
        _ => Err(place),
    }
}

fn read_signed_number(tokens: &Vec<Lexeme>, at: usize) -> (r: Result<
    (SignedNumericLiteral, usize),
    usize,
>)
    requires
        at <= tokens@.len(),
    ensures
        same_parse(r, tokens@, at as int, signed_number_at(tokens@, at as int)),
{
    let (sign, place): (NumericSign, usize) = read_sign(tokens, at);
    if place >= tokens.len() {
        return Err(place);
    }
    let span: Span = make_span(tokens, at, place + 1);
    match &tokens[place].token {
        Token::Integer(magnitude) => Ok(
            (
                SignedNumericLiteral {
                    sign,
                    kind: NumericLiteralKind::Integer(*magnitude),
                    span,
                },
                place + 1,
            ),
        ),
        Token::FloatingPoint(text) => Ok(
            (
                SignedNumericLiteral {
                    sign,
                    kind: NumericLiteralKind::FloatingPoint(text.clone()),
                    span,
                },
                place + 1,
            ),
        ),
        _ => Err(place),
    }
}

fn find_integer_type(token: &Token) -> (r: Option<NumericType>)
    ensures
        r == integer_type(*token),
{
    match token {
        Token::KeywordInt32 => Some(NumericType::Int32),
        Token::KeywordInt64 => Some(NumericType::Int64),
        Token::KeywordUInt32 => Some(NumericType::UInt32),
        Token::KeywordUInt64 => Some(NumericType::UInt64),
        _ => None,
    }
}

fn find_floating_type(token: &Token) -> (r: Option<NumericType>)
    ensures
        r == floating_type(*token),
{
    match token {
        Token::KeywordFloat32 => Some(NumericType::Float32),
        Token::KeywordFloat64 => Some(NumericType::Float64),
        _ => None,
    }
}

fn find_logical_type(token: &Token) -> (r: Option<LogicalType>)
    ensures
        r == logical_type(*token),
{
    match token {
        Token::KeywordBool => Some(LogicalType::Bool),
        Token::KeywordInt32 => Some(LogicalType::Int32),
        Token::KeywordInt64 => Some(LogicalType::Int64),
        Token::KeywordUInt32 => Some(LogicalType::UInt32),
        Token::KeywordUInt64 => Some(LogicalType::UInt64),
        Token::KeywordFloat32 => Some(LogicalType::Float32),
        Token::KeywordFloat64 => Some(LogicalType::Float64),
        Token::KeywordUtf8 => Some(LogicalType::Utf8),
        Token::KeywordDatetime => Some(LogicalType::Datetime),
        Token::KeywordEid => Some(LogicalType::Eid),
        Token::KeywordJson => Some(LogicalType::Json),
        _ => None,
    }
}

fn find_time_unit(token: &Token) -> (r: Option<TimeUnit>)
    ensures
        r == time_unit(*token),
{
    match token {
        Token::KeywordSecond => Some(TimeUnit::Second),
        Token::KeywordMinute => Some(TimeUnit::Minute),
        Token::KeywordHour => Some(TimeUnit::Hour),
        Token::KeywordDay => Some(TimeUnit::Day),
        _ => None,
    }
}

fn find_aggregate_function(token: &Token) -> (r: Option<AggregateFunction>)
    ensures
        r == aggregate_function(*token),
{
    match token {
        Token::KeywordCount => Some(AggregateFunction::Count),
        Token::KeywordSum => Some(AggregateFunction::Sum),
        Token::KeywordMin => Some(AggregateFunction::Min),
        Token::KeywordMax => Some(AggregateFunction::Max),
        Token::KeywordAvg => Some(AggregateFunction::Avg),
        _ => None,
    }
}

fn read_numeric_constructor(tokens: &Vec<Lexeme>, at: usize, target: NumericType, integer: bool) -> (r:
    Result<(Expression, usize), usize>)
    requires
        at < tokens@.len(),
    ensures
        same_parse(
            r,
            tokens@,
            at as int,
            numeric_constructor_at(tokens@, at as int, target, integer),
        ),
{
    assert(tokens.len() == tokens@.len());
    if !has_token(tokens, at + 1, &Token::LeftParenthesis) {
        return Err(at + 1);
    }
    match read_signed_number(tokens, at + 2) {
        Err(place) => Err(place),
        Ok((literal, next)) => {
            if integer && matches!(literal.kind, NumericLiteralKind::FloatingPoint(_)) {
                return Err(next - 1);
            }
            if !has_token(tokens, next, &Token::RightParenthesis) {
                return Err(next);
            }
            let span: Span = make_span(tokens, at, next + 1);
            Ok(
                (
                    Expression {
                        kind: ExpressionKind::Constructor(
                            Constructor {
                                kind: ConstructorKind::Numeric { target, literal },
                                span,
                            },
                        ),
                        span,
                    },
                    next + 1,
                ),
            )
        },
    }
}

fn read_text_constructor(tokens: &Vec<Lexeme>, at: usize, eid: bool) -> (r: Result<
    (Expression, usize),
    usize,
>)
    requires
        at < tokens@.len(),
    ensures
        same_parse(r, tokens@, at as int, text_constructor_at(tokens@, at as int, eid)),
{
    assert(tokens.len() == tokens@.len());
    match read_enclosed_string(tokens, at + 1) {
        Err(place) => Err(place),
        Ok((value, next)) => {
            let span: Span = make_span(tokens, at, next);
            let kind: ConstructorKind = if eid {
                ConstructorKind::Eid(value)
            } else {
                ConstructorKind::Datetime(value)
            };
            Ok(
                (
                    Expression {
                        kind: ExpressionKind::Constructor(Constructor { kind, span }),
                        span,
                    },
                    next,
                ),
            )
        },
    }
}

fn read_remainder(tokens: &Vec<Lexeme>, at: usize, function: RemainderFunction) -> (r: Result<
    (Expression, usize),
    usize,
>)
    requires
        at < tokens@.len(),
    ensures
        same_parse(r, tokens@, at as int, remainder_at(tokens@, at as int, function)),
{
    assert(tokens.len() == tokens@.len());
    match read_enclosed_string(tokens, at + 1) {
        Err(place) => Err(place),
        Ok((key, next)) => {
            let span: Span = make_span(tokens, at, next);
            Ok(
                (
                    Expression {
                        kind: ExpressionKind::Remainder(
                            RemainderExpression { function, key, span },
                        ),
                        span,
                    },
                    next,
                ),
            )
        },
    }
}

fn find_literal(token: &Token) -> (r: Option<LiteralKind>)
    ensures
        r == literal_of(*token),
{
    match token {
        Token::Integer(value) => Some(LiteralKind::Integer(*value)),
        Token::FloatingPoint(text) => Some(LiteralKind::FloatingPoint(text.clone())),
        Token::StringLiteral(text) => Some(LiteralKind::String(text.clone())),
        Token::KeywordNull => Some(LiteralKind::Null),
        Token::KeywordTrue => Some(LiteralKind::Boolean(true)),
        Token::KeywordFalse => Some(LiteralKind::Boolean(false)),
        _ => None,
    }
}

fn find_operator(token: &Token, level: u8) -> (r: Option<BinaryOperator>)
    ensures
        r == operator_of(*token, level as nat),
{
    if level == 1 {
        match token {
            Token::OperatorMultiply => Some(BinaryOperator::Multiply),
            Token::OperatorDivide => Some(BinaryOperator::Divide),
            _ => None,
        }
    } else if level == 2 {
        match token {
            Token::OperatorAdd => Some(BinaryOperator::Add),
            Token::OperatorSubtract => Some(BinaryOperator::Subtract),
            _ => None,
        }
    } else if level == 3 {
        match token {
            Token::OperatorEqual => Some(BinaryOperator::Equal),
            Token::OperatorNotEqual => Some(BinaryOperator::NotEqual),
            Token::OperatorGreaterThanOrEqual => Some(BinaryOperator::GreaterThanOrEqual),
            Token::OperatorGreaterThan => Some(BinaryOperator::GreaterThan),
            Token::OperatorLessThanOrEqual => Some(BinaryOperator::LessThanOrEqual),
            Token::OperatorLessThan => Some(BinaryOperator::LessThan),
            _ => None,
        }
    } else if level == 4 {
        match token {
            Token::KeywordAnd => Some(BinaryOperator::And),
            _ => None,
        }
    } else {
        match token {
            Token::KeywordOr => Some(BinaryOperator::Or),
            _ => None,
        }
    }
}

fn read_primary(tokens: &Vec<Lexeme>, at: usize) -> (r: Result<(Expression, usize), usize>)
    requires
        at <= tokens@.len(),
    ensures
        same_parse(r, tokens@, at as int, primary_at(tokens@, at as int)),
    decreases tokens@.len() - at, 0nat,
{
    if at >= tokens.len() {
        return Err(at);
    }
    let token: &Token = &tokens[at].token;
    let span: Span = tokens[at].span;
    if let Some(target) = find_integer_type(token) {
        return read_numeric_constructor(tokens, at, target, true);
    }
    if let Some(target) = find_floating_type(token) {
        return read_numeric_constructor(tokens, at, target, false);
    }
    if let Some(kind) = find_literal(token) {
        return Ok(
            (
                Expression { kind: ExpressionKind::Literal(Literal { kind, span }), span },
                at + 1,
            ),
        );
    }
    match token {
        Token::KeywordDatetime => read_text_constructor(tokens, at, false),
        Token::KeywordEid => read_text_constructor(tokens, at, true),
        Token::KeywordRest => read_remainder(tokens, at, RemainderFunction::Value),
        Token::KeywordRestExists => read_remainder(tokens, at, RemainderFunction::Exists),
        Token::KeywordCast => read_cast(tokens, at, CastKind::Strict),
        Token::KeywordTryCast => read_cast(tokens, at, CastKind::NullOnFailure),
        Token::LeftParenthesis => match read_level(tokens, at + 1, EXPRESSION_LEVEL) {
            Err(place) => Err(place),
            Ok((expression, next)) => if has_token(tokens, next, &Token::RightParenthesis) {
                Ok(
                    (
                        Expression {
                            kind: expression.kind,
                            span: make_span(tokens, at, next + 1),
                        },
                        next + 1,
                    ),
                )
            } else {
                Err(next)
            },
        },
        _ => match read_field(tokens, at) {
            Err(place) => Err(place),
            Ok((field, next)) => {
                let span: Span = field.span();
                Ok((Expression { kind: ExpressionKind::Field(field), span }, next))
            },
        },
    }
}

fn read_cast(tokens: &Vec<Lexeme>, at: usize, kind: CastKind) -> (r: Result<
    (Expression, usize),
    usize,
>)
    requires
        at < tokens@.len(),
    ensures
        same_parse(r, tokens@, at as int, cast_at(tokens@, at as int, kind)),
    decreases tokens@.len() - at - 1, 8nat,
{
    let count: usize = tokens.len();
    if !has_token(tokens, at + 1, &Token::LeftParenthesis) {
        return Err(at + 1);
    }
    match read_level(tokens, at + 2, EXPRESSION_LEVEL) {
        Err(place) => Err(place),
        Ok((expression, next)) => {
            if !has_token(tokens, next, &Token::KeywordAs) {
                return Err(next);
            }
            if next + 1 >= count {
                return Err(next + 1);
            }
            match find_logical_type(&tokens[next + 1].token) {
                None => Err(next + 1),
                Some(target) => {
                    if !has_token(tokens, next + 2, &Token::RightParenthesis) {
                        return Err(next + 2);
                    }
                    let span: Span = make_span(tokens, at, next + 3);
                    Ok(
                        (
                            Expression {
                                kind: ExpressionKind::Cast(
                                    CastExpression {
                                        kind,
                                        expression: Box::new(expression),
                                        target,
                                        span,
                                    },
                                ),
                                span,
                            },
                            next + 3,
                        ),
                    )
                },
            }
        },
    }
}

fn read_unary(tokens: &Vec<Lexeme>, at: usize) -> (r: Result<(Expression, usize), usize>)
    requires
        at <= tokens@.len(),
    ensures
        same_parse(r, tokens@, at as int, unary_at(tokens@, at as int)),
    decreases tokens@.len() - at, 1nat,
{
    let operator: Option<UnaryOperator> = if has_token(tokens, at, &Token::KeywordNot) {
        Some(UnaryOperator::Not)
    } else if has_token(tokens, at, &Token::OperatorSubtract) {
        Some(UnaryOperator::Negate)
    } else {
        None
    };
    match operator {
        None => read_primary(tokens, at),
        Some(operator) => match read_primary(tokens, at + 1) {
            Err(place) => Err(place),
            Ok((operand, next)) => {
                let span: Span = make_span(tokens, at, next);
                Ok(
                    (
                        Expression {
                            kind: ExpressionKind::Unary { operator, operand: Box::new(operand) },
                            span,
                        },
                        next,
                    ),
                )
            },
        },
    }
}

fn read_level(tokens: &Vec<Lexeme>, at: usize, level: u8) -> (r: Result<
    (Expression, usize),
    usize,
>)
    requires
        at <= tokens@.len(),
        level <= EXPRESSION_LEVEL,
    ensures
        same_parse(r, tokens@, at as int, level_at(tokens@, at as int, level as nat)),
    decreases tokens@.len() - at, level + 2,
{
    if level == 0 {
        return read_unary(tokens, at);
    }
    let count: usize = tokens.len();
    let (mut left, mut next): (Expression, usize) = match read_level(tokens, at, level - 1) {
        Err(place) => {
            return Err(place);
        },
        Ok(read) => read,
    };
    while next < count
        invariant
            count == tokens@.len(),
            at < next <= count,
            0 < level <= EXPRESSION_LEVEL,
            level_at(tokens@, at as int, level as nat) == joined_from(
                tokens@,
                at as int,
                next as int,
                left,
                level as nat,
            ),
        decreases count - next,
    {
        match find_operator(&tokens[next].token, level) {
            None => {
                return Ok((left, next));
            },
            Some(operator) => match read_level(tokens, next + 1, level - 1) {
                Err(place) => {
                    return Err(place);
                },
                Ok((right, end)) => {
                    left =
                    Expression {
                        kind: ExpressionKind::Binary {
                            operator,
                            left: Box::new(left),
                            right: Box::new(right),
                        },
                        span: make_span(tokens, at, end),
                    };
                    next = end;
                    if level == COMPARISON_LEVEL {
                        return Ok((left, next));
                    }
                },
            },
        }
    }
    Ok((left, next))
}

fn read_expression(tokens: &Vec<Lexeme>, at: usize) -> (r: Result<(Expression, usize), usize>)
    requires
        at <= tokens@.len(),
    ensures
        same_parse(r, tokens@, at as int, expression_at(tokens@, at as int)),
{
    read_level(tokens, at, EXPRESSION_LEVEL)
}

fn find_truncation_unit(token: &Token) -> (r: Option<TimeUnit>)
    ensures
        r == truncation_unit(*token),
{
    match token {
        Token::SystemIdentifier(text) => if *text == "@s".to_owned() {
            Some(TimeUnit::Second)
        } else if *text == "@m".to_owned() {
            Some(TimeUnit::Minute)
        } else if *text == "@h".to_owned() {
            Some(TimeUnit::Hour)
        } else if *text == "@d".to_owned() {
            Some(TimeUnit::Day)
        } else {
            None
        },
        _ => None,
    }
}

fn read_unit(tokens: &Vec<Lexeme>, at: usize) -> (r: Result<(TimeUnit, usize), usize>)
    requires
        at <= tokens@.len(),
    ensures
        same_parse(r, tokens@, at as int, unit_at(tokens@, at as int)),
{
    if at >= tokens.len() {
        return Err(at);
    }
    match find_time_unit(&tokens[at].token) {
        Some(unit) => Ok((unit, at + 1)),
        None => Err(at),
    }
}

fn begins_operation(tokens: &Vec<Lexeme>, at: usize) -> (r: bool)
    ensures
        r == operation_begins(tokens@, at as int),
{
    if at >= tokens.len() {
        return false;
    }
    match &tokens[at].token {
        Token::At | Token::OperatorAdd | Token::OperatorSubtract => true,
        token => find_truncation_unit(token).is_some(),
    }
}

fn read_shift(tokens: &Vec<Lexeme>, at: usize, direction: TimeDirection) -> (r: Result<
    (TimeOperation, usize),
    usize,
>)
    requires
        at < tokens@.len(),
    ensures
        same_parse(r, tokens@, at as int, shift_at(tokens@, at as int, direction)),
{
    let count: usize = tokens.len();
    let mut magnitude: Magnitude = Magnitude(1);
    let mut place: usize = at + 1;
    if place < count {
        if let Token::Integer(value) = &tokens[place].token {
            match Magnitude::new(*value) {
                Some(number) => magnitude = number,
                None => {
                    return Err(place);
                },
            }
            place = place + 1;
        }
    }
    match read_unit(tokens, place) {
        Err(place) => Err(place),
        Ok((unit, next)) => Ok(
            (
                TimeOperation {
                    kind: TimeOperationKind::Shift { direction, magnitude, unit },
                    span: make_span(tokens, at, next),
                },
                next,
            ),
        ),
    }
}

fn read_operation(tokens: &Vec<Lexeme>, at: usize) -> (r: Result<(TimeOperation, usize), usize>)
    requires
        at < tokens@.len(),
    ensures
        same_parse(r, tokens@, at as int, operation_at(tokens@, at as int)),
{
    assert(tokens.len() == tokens@.len());
    match &tokens[at].token {
        Token::OperatorAdd => read_shift(tokens, at, TimeDirection::Forward),
        Token::OperatorSubtract => read_shift(tokens, at, TimeDirection::Backward),
        Token::At => match read_unit(tokens, at + 1) {
            Err(place) => Err(place),
            Ok((unit, next)) => Ok(
                (
                    TimeOperation {
                        kind: TimeOperationKind::Truncate(unit),
                        span: make_span(tokens, at, next),
                    },
                    next,
                ),
            ),
        },
        token => match find_truncation_unit(token) {
            None => Err(at),
            Some(unit) => Ok(
                (
                    TimeOperation {
                        kind: TimeOperationKind::Truncate(unit),
                        span: make_span(tokens, at, at + 1),
                    },
                    at + 1,
                ),
            ),
        },
    }
}

/// Whether a bound that was read is what the grammar says.
pub open spec fn same_time(
    r: Result<(TimeExpression, usize), usize>,
    tokens: Seq<Lexeme>,
    at: int,
    made: Result<(TimeView, int), int>,
) -> bool {
    match r {
        Ok((value, next)) => made == Ok::<(TimeView, int), int>((value@, next as int)) && at < next
            <= tokens.len(),
        Err(place) => made == Err::<(TimeView, int), int>(place as int) && place <= tokens.len(),
    }
}

fn read_operations(tokens: &Vec<Lexeme>, at: usize) -> (r: Result<
    (Vec<TimeOperation>, usize),
    usize,
>)
    requires
        operation_begins(tokens@, at as int),
    ensures
        match r {
            Ok((operations, next)) => operations_from(tokens@, at as int, Seq::empty()) == Ok::<
                (Seq<TimeOperation>, int),
                int,
            >((operations@, next as int)) && at < next <= tokens@.len(),
            Err(place) => operations_from(tokens@, at as int, Seq::empty()) == Err::<
                (Seq<TimeOperation>, int),
                int,
            >(place as int) && place <= tokens@.len(),
        },
{
    let mut operations: Vec<TimeOperation> = Vec::new();
    let mut next: usize = at;
    assert(operations@ =~= Seq::empty());
    while begins_operation(tokens, next)
        invariant
            at <= next <= tokens@.len(),
            next == at ==> operation_begins(tokens@, at as int),
            operations_from(tokens@, at as int, Seq::empty()) == operations_from(
                tokens@,
                next as int,
                operations@,
            ),
        decreases tokens@.len() - next,
    {
        match read_operation(tokens, next) {
            Err(place) => {
                return Err(place);
            },
            Ok((operation, end)) => {
                operations.push(operation);
                next = end;
            },
        }
    }
    Ok((operations, next))
}

fn read_time(tokens: &Vec<Lexeme>, at: usize) -> (r: Result<(TimeExpression, usize), usize>)
    requires
        at <= tokens@.len(),
    ensures
        same_time(r, tokens@, at as int, time_at(tokens@, at as int)),
{
    if has_token(tokens, at, &Token::KeywordDatetime) {
        return match read_enclosed_string(tokens, at + 1) {
            Err(place) => Err(place),
            Ok((value, next)) => Ok(
                (
                    TimeExpression {
                        kind: TimeExpressionKind::Datetime(value),
                        span: make_span(tokens, at, next),
                    },
                    next,
                ),
            ),
        };
    }
    if has_token(tokens, at, &Token::KeywordNow) {
        return Ok(
            (
                TimeExpression {
                    kind: TimeExpressionKind::Now,
                    span: make_span(tokens, at, at + 1),
                },
                at + 1,
            ),
        );
    }
    if !begins_operation(tokens, at) {
        return Err(at);
    }
    match read_operations(tokens, at) {
        Err(place) => Err(place),
        Ok((operations, next)) => Ok(
            (
                TimeExpression {
                    kind: TimeExpressionKind::Relative(operations),
                    span: make_span(tokens, at, next),
                },
                next,
            ),
        ),
    }
}

fn read_bound(tokens: &Vec<Lexeme>, at: usize, keyword: &Token) -> (r: Result<
    (Option<TimeExpression>, usize),
    usize,
>)
    requires
        at <= tokens@.len(),
        is_tested(*keyword),
    ensures
        match r {
            Ok((bound, next)) => bound_at(tokens@, at as int, *keyword) == Ok::<
                (Option<TimeView>, int),
                int,
            >((optional_time(bound), next as int)) && at <= next <= tokens@.len(),
            Err(place) => bound_at(tokens@, at as int, *keyword) == Err::<
                (Option<TimeView>, int),
                int,
            >(place as int) && place <= tokens@.len(),
        },
{
    if !has_token(tokens, at, keyword) {
        return Ok((None, at));
    }
    assert(tokens.len() == tokens@.len());
    if !has_token(tokens, at + 1, &Token::OperatorAssign) {
        return Err(at + 1);
    }
    match read_time(tokens, at + 2) {
        Err(place) => Err(place),
        Ok((time, next)) => Ok((Some(time), next)),
    }
}

fn read_source(tokens: &Vec<Lexeme>, at: usize) -> (r: Result<(SourceExpression, usize), usize>)
    requires
        at <= tokens@.len(),
    ensures
        match r {
            Ok((source, next)) => source_at(tokens@, at as int) == Ok::<(SourceView, int), int>(
                (source@, next as int),
            ) && at < next <= tokens@.len(),
            Err(place) => source_at(tokens@, at as int) == Err::<(SourceView, int), int>(
                place as int,
            ) && place <= tokens@.len(),
        },
{
    if !has_token(tokens, at, &Token::KeywordSource) {
        return Err(at);
    }
    let (name, next): (Identifier, usize) = match read_identifier(tokens, at + 1) {
        Err(place) => {
            return Err(place);
        },
        Ok(read) => read,
    };
    let (start_inclusive, next): (Option<TimeExpression>, usize) = match read_bound(
        tokens,
        next,
        &Token::KeywordStartInclusive,
    ) {
        Err(place) => {
            return Err(place);
        },
        Ok(read) => read,
    };
    let (end_exclusive, next): (Option<TimeExpression>, usize) = match read_bound(
        tokens,
        next,
        &Token::KeywordEndExclusive,
    ) {
        Err(place) => {
            return Err(place);
        },
        Ok(read) => read,
    };
    let span: Span = make_span(tokens, at, next);
    Ok((SourceExpression { name, start_inclusive, end_exclusive, span }, next))
}

fn read_projection(tokens: &Vec<Lexeme>, at: usize) -> (r: Result<(Projection, usize), usize>)
    requires
        at <= tokens@.len(),
    ensures
        same_parse(r, tokens@, at as int, projection_at(tokens@, at as int)),
{
    if let Ok((alias, next)) = read_identifier(tokens, at) {
        if has_token(tokens, next, &Token::OperatorAssign) {
            return match read_expression(tokens, next + 1) {
                Err(place) => Err(place),
                Ok((expression, end)) => Ok(
                    (
                        Projection::Computed(
                            ComputedProjection {
                                alias,
                                expression,
                                span: make_span(tokens, at, end),
                            },
                        ),
                        end,
                    ),
                ),
            };
        }
    }
    match read_expression(tokens, at) {
        Err(place) => Err(place),
        Ok((expression, next)) => {
            if next == at + 1 {
                let Expression { kind, span } = expression;
                match kind {
                    ExpressionKind::Field(field) => Ok((Projection::Field(field), next)),
                    kind => Ok((Projection::Unaliased(Expression { kind, span }), next)),
                }
            } else {
                Ok((Projection::Unaliased(expression), next))
            }
        },
    }
}

fn read_sort_item(tokens: &Vec<Lexeme>, at: usize) -> (r: Result<(SortItem, usize), usize>)
    requires
        at <= tokens@.len(),
    ensures
        same_parse(r, tokens@, at as int, sort_item_at(tokens@, at as int)),
{
    let (direction, place): (SortDirection, usize) = if has_token(
        tokens,
        at,
        &Token::OperatorAdd,
    ) {
        (SortDirection::Ascending, at + 1)
    } else if has_token(tokens, at, &Token::OperatorSubtract) {
        (SortDirection::Descending, at + 1)
    } else {
        (SortDirection::Ascending, at)
    };
    match read_field(tokens, place) {
        Err(place) => Err(place),
        Ok((field, next)) => Ok(
            (SortItem { field, direction, span: make_span(tokens, at, next) }, next),
        ),
    }
}

fn read_aggregate(tokens: &Vec<Lexeme>, at: usize) -> (r: Result<(AggregateCall, usize), usize>)
    requires
        at <= tokens@.len(),
    ensures
        same_parse(r, tokens@, at as int, aggregate_at(tokens@, at as int)),
{
    let count: usize = tokens.len();
    if at >= count {
        return Err(at);
    }
    match find_aggregate_function(&tokens[at].token) {
        None => Err(at),
        Some(function) => {
            if !has_token(tokens, at + 1, &Token::LeftParenthesis) {
                return Err(at + 1);
            }
            let (argument, place): (Option<FieldReference>, usize) = match read_field(
                tokens,
                at + 2,
            ) {
                Ok((field, next)) => (Some(field), next),
                Err(_) => (None, at + 2),
            };
            if has_token(tokens, place, &Token::RightParenthesis) {
                let span: Span = make_span(tokens, at, place + 1);
                Ok((AggregateCall { function, argument, span }, place + 1))
            } else {
                Err(place)
            }
        },
    }
}

fn read_measure(tokens: &Vec<Lexeme>, at: usize) -> (r: Result<(Measure, usize), usize>)
    requires
        at <= tokens@.len(),
    ensures
        same_parse(r, tokens@, at as int, measure_at(tokens@, at as int)),
{
    match read_identifier(tokens, at) {
        Ok((alias, next)) => {
            if !has_token(tokens, next, &Token::OperatorAssign) {
                return Err(next);
            }
            match read_aggregate(tokens, next + 1) {
                Err(place) => Err(place),
                Ok((aggregate, end)) => Ok(
                    (
                        Measure {
                            alias: Some(alias),
                            aggregate,
                            span: make_span(tokens, at, end),
                        },
                        end,
                    ),
                ),
            }
        },
        Err(_) => match read_aggregate(tokens, at) {
            Err(place) => Err(place),
            Ok((aggregate, next)) => Ok(
                (Measure { alias: None, aggregate, span: make_span(tokens, at, next) }, next),
            ),
        },
    }
}

/// Whether a list that was read is what the grammar says.
pub open spec fn same_list<T>(
    r: Result<(Vec<T>, usize), usize>,
    tokens: Seq<Lexeme>,
    at: int,
    made: Result<(Seq<T>, int), int>,
) -> bool {
    match r {
        Ok((values, next)) => made == Ok::<(Seq<T>, int), int>((values@, next as int)) && at <= next
            <= tokens.len(),
        Err(place) => made == Err::<(Seq<T>, int), int>(place as int) && place <= tokens.len(),
    }
}

fn read_projections(tokens: &Vec<Lexeme>, at: usize) -> (r: Result<(Vec<Projection>, usize), usize>)
    requires
        at <= tokens@.len(),
    ensures
        same_list(
            r,
            tokens@,
            at as int,
            list_from(tokens@, at as int, |place: int| projection_at(tokens@, place), Seq::empty()),
        ),
        r matches Ok((_, next)) ==> at < next,
{
    let ghost item = |place: int| projection_at(tokens@, place);
    let mut values: Vec<Projection> = Vec::new();
    let mut place: usize = at;
    assert(values@ =~= Seq::empty());
    loop
        invariant
            at <= place <= tokens@.len(),
            item == (|place: int| projection_at(tokens@, place)),
            list_from(tokens@, at as int, item, Seq::empty()) == list_from(
                tokens@,
                place as int,
                item,
                values@,
            ),
        decreases tokens@.len() - place,
    {
        assert(item(place as int) == projection_at(tokens@, place as int));
        match read_projection(tokens, place) {
            Err(place) => {
                return Err(place);
            },
            Ok((value, next)) => {
                values.push(value);
                if !has_token(tokens, next, &Token::Comma) {
                    return Ok((values, next));
                }
                place = next + 1;
            },
        }
    }
}

fn read_sort_items(tokens: &Vec<Lexeme>, at: usize) -> (r: Result<(Vec<SortItem>, usize), usize>)
    requires
        at <= tokens@.len(),
    ensures
        same_list(
            r,
            tokens@,
            at as int,
            list_from(tokens@, at as int, |place: int| sort_item_at(tokens@, place), Seq::empty()),
        ),
        r matches Ok((_, next)) ==> at < next,
{
    let ghost item = |place: int| sort_item_at(tokens@, place);
    let mut values: Vec<SortItem> = Vec::new();
    let mut place: usize = at;
    assert(values@ =~= Seq::empty());
    loop
        invariant
            at <= place <= tokens@.len(),
            item == (|place: int| sort_item_at(tokens@, place)),
            list_from(tokens@, at as int, item, Seq::empty()) == list_from(
                tokens@,
                place as int,
                item,
                values@,
            ),
        decreases tokens@.len() - place,
    {
        assert(item(place as int) == sort_item_at(tokens@, place as int));
        match read_sort_item(tokens, place) {
            Err(place) => {
                return Err(place);
            },
            Ok((value, next)) => {
                values.push(value);
                if !has_token(tokens, next, &Token::Comma) {
                    return Ok((values, next));
                }
                place = next + 1;
            },
        }
    }
}

fn read_measures(tokens: &Vec<Lexeme>, at: usize) -> (r: Result<(Vec<Measure>, usize), usize>)
    requires
        at <= tokens@.len(),
    ensures
        same_list(
            r,
            tokens@,
            at as int,
            list_from(tokens@, at as int, |place: int| measure_at(tokens@, place), Seq::empty()),
        ),
        r matches Ok((_, next)) ==> at < next,
{
    let ghost item = |place: int| measure_at(tokens@, place);
    let mut values: Vec<Measure> = Vec::new();
    let mut place: usize = at;
    assert(values@ =~= Seq::empty());
    loop
        invariant
            at <= place <= tokens@.len(),
            item == (|place: int| measure_at(tokens@, place)),
            list_from(tokens@, at as int, item, Seq::empty()) == list_from(
                tokens@,
                place as int,
                item,
                values@,
            ),
        decreases tokens@.len() - place,
    {
        assert(item(place as int) == measure_at(tokens@, place as int));
        match read_measure(tokens, place) {
            Err(place) => {
                return Err(place);
            },
            Ok((value, next)) => {
                values.push(value);
                if !has_token(tokens, next, &Token::Comma) {
                    return Ok((values, next));
                }
                place = next + 1;
            },
        }
    }
}

fn read_fields(tokens: &Vec<Lexeme>, at: usize) -> (r: Result<(Vec<FieldReference>, usize), usize>)
    requires
        at <= tokens@.len(),
    ensures
        same_list(
            r,
            tokens@,
            at as int,
            list_from(tokens@, at as int, |place: int| field_at(tokens@, place), Seq::empty()),
        ),
        r matches Ok((_, next)) ==> at < next,
{
    let ghost item = |place: int| field_at(tokens@, place);
    let mut values: Vec<FieldReference> = Vec::new();
    let mut place: usize = at;
    assert(values@ =~= Seq::empty());
    loop
        invariant
            at <= place <= tokens@.len(),
            item == (|place: int| field_at(tokens@, place)),
            list_from(tokens@, at as int, item, Seq::empty()) == list_from(
                tokens@,
                place as int,
                item,
                values@,
            ),
        decreases tokens@.len() - place,
    {
        assert(item(place as int) == field_at(tokens@, place as int));
        match read_field(tokens, place) {
            Err(place) => {
                return Err(place);
            },
            Ok((value, next)) => {
                values.push(value);
                if !has_token(tokens, next, &Token::Comma) {
                    return Ok((values, next));
                }
                place = next + 1;
            },
        }
    }
}

fn read_group(tokens: &Vec<Lexeme>, at: usize) -> (r: Result<
    (Vec<FieldReference>, usize),
    usize,
>)
    requires
        at <= tokens@.len(),
    ensures
        same_list(r, tokens@, at as int, group_at(tokens@, at as int)),
{
    if has_token(tokens, at, &Token::KeywordBy) {
        read_fields(tokens, at + 1)
    } else {
        let none: Vec<FieldReference> = Vec::new();
        assert(none@ =~= Seq::empty());
        Ok((none, at))
    }
}

/// Whether a stage that was read is what the grammar says.
pub open spec fn same_stage(
    r: Result<(Stage, usize), usize>,
    tokens: Seq<Lexeme>,
    at: int,
    made: Result<(StageView, int), int>,
) -> bool {
    match r {
        Ok((stage, next)) => made == Ok::<(StageView, int), int>((stage@, next as int)) && at < next
            <= tokens.len(),
        Err(place) => made == Err::<(StageView, int), int>(place as int) && place <= tokens.len(),
    }
}

fn read_stage(tokens: &Vec<Lexeme>, at: usize) -> (r: Result<(Stage, usize), usize>)
    requires
        at <= tokens@.len(),
    ensures
        same_stage(r, tokens@, at as int, stage_at(tokens@, at as int)),
{
    if at >= tokens.len() {
        return Err(at);
    }
    let (kind, next): (StageKind, usize) = match &tokens[at].token {
        Token::KeywordFilter => match read_expression(tokens, at + 1) {
            Err(place) => {
                return Err(place);
            },
            Ok((expression, next)) => (StageKind::Filter(expression), next),
        },
        Token::KeywordProject => match read_projections(tokens, at + 1) {
            Err(place) => {
                return Err(place);
            },
            Ok((projections, next)) => (StageKind::Project(projections), next),
        },
        Token::KeywordSort => {
            let place: usize = if has_token(tokens, at + 1, &Token::KeywordBy) {
                at + 2
            } else {
                at + 1
            };
            match read_sort_items(tokens, place) {
                Err(place) => {
                    return Err(place);
                },
                Ok((items, next)) => (StageKind::Sort(items), next),
            }
        },
        Token::KeywordTake => match read_signed_integer(tokens, at + 1) {
            Err(place) => {
                return Err(place);
            },
            Ok((value, next)) => (StageKind::Take(value), next),
        },
        Token::KeywordSummarize => match read_measures(tokens, at + 1) {
            Err(place) => {
                return Err(place);
            },
            Ok((measures, next)) => match read_group(tokens, next) {
                Err(place) => {
                    return Err(place);
                },
                Ok((group_by, next)) => (StageKind::Summarize { measures, group_by }, next),
            },
        },
        _ => {
            return Err(at);
        },
    };
    let span: Span = make_span(tokens, at, next);
    Ok((Stage { kind, span }, next))
}

fn read_stages(tokens: &Vec<Lexeme>, at: usize) -> (r: Result<(Vec<Stage>, usize), usize>)
    requires
        at <= tokens@.len(),
    ensures
        match r {
            Ok((stages, next)) => stages_from(tokens@, at as int, Seq::empty()) == Ok::<
                (Seq<StageView>, int),
                int,
            >((stage_views(stages@), next as int)) && at <= next <= tokens@.len(),
            Err(place) => stages_from(tokens@, at as int, Seq::empty()) == Err::<
                (Seq<StageView>, int),
                int,
            >(place as int) && place <= tokens@.len(),
        },
{
    let mut stages: Vec<Stage> = Vec::new();
    let mut next: usize = at;
    assert(stage_views(stages@) =~= Seq::empty());
    while has_token(tokens, next, &Token::Pipe)
        invariant
            at <= next <= tokens@.len(),
            stages_from(tokens@, at as int, Seq::empty()) == stages_from(
                tokens@,
                next as int,
                stage_views(stages@),
            ),
        decreases tokens@.len() - next,
    {
        match read_stage(tokens, next + 1) {
            Err(place) => {
                return Err(place);
            },
            Ok((stage, end)) => {
                let ghost before = stage_views(stages@);
                let ghost view = stage@;
                stages.push(stage);
                assert(stage_views(stages@) =~= before.push(view));
                next = end;
            },
        }
    }
    Ok((stages, next))
}

/// Reads the query that tokens are, or finds the place of the first that does not fit.
pub fn read_query(tokens: &Vec<Lexeme>) -> (r: Result<Query, usize>)
    ensures
        match r {
            Ok(query) => query_of(tokens@) == Ok::<QueryView, int>(query@),
            Err(place) => query_of(tokens@) == Err::<QueryView, int>(place as int) && place
                <= tokens@.len(),
        },
{
    let (source, next): (SourceExpression, usize) = match read_source(tokens, 0) {
        Err(place) => {
            return Err(place);
        },
        Ok(read) => read,
    };
    let (stages, next): (Vec<Stage>, usize) = match read_stages(tokens, next) {
        Err(place) => {
            return Err(place);
        },
        Ok(read) => read,
    };
    if next != tokens.len() {
        return Err(next);
    }
    let span: Span = make_span(tokens, 0, next);
    Ok(Query { source, stages, span })
}

/// Whether lexemes are tokens with how each is shown.
pub open spec fn lexemes_of(tokens: Seq<Lexeme>, pairs: Seq<(Token, Span)>) -> bool {
    &&& tokens.len() == pairs.len()
    &&& forall|i: int|
        0 <= i < tokens.len() ==> {
            &&& (#[trigger] tokens[i]).token == pairs[i].0
            &&& tokens[i].span == pairs[i].1
            &&& tokens[i].word@ == pairs[i].0.shown()
        }
}

/// Whether lexemes are those of a query.
pub open spec fn lexemes_of_source(tokens: Seq<Lexeme>, source: Seq<u8>) -> bool {
    exists|pairs: Seq<(Token, Span)>|
        #[trigger] token_views(pairs) == tokens_from(source, 0) && lexemes_of(tokens, pairs)
}

/// The tokens of a query, with how each is shown.
pub fn lexemes(source: &str) -> (r: Vec<Lexeme>)
    ensures
        lexemes_of_source(r@, source.spec_bytes()),
{
    let pairs: Vec<(Token, Span)> = tokenizer(source);
    let ghost all = pairs@;
    let mut tokens: Vec<Lexeme> = Vec::new();
    for pair in iter: pairs
        invariant
            iter.seq() == all,
            lexemes_of(tokens@, all.subrange(0, iter.index() as int)),
    {
        let (token, span): (Token, Span) = pair;
        let word: String = token.to_string();
        tokens.push(Lexeme { token, span, word });
    }
    assert(all.subrange(0, all.len() as int) =~= all);
    assert(lexemes_of(tokens@, all));
    tokens
}

/// Why a query was not read: the token that does not fit and where it stands, or that the query
/// ends too early.
#[derive(Debug, PartialEq, Eq)]
pub struct ParserError {
    pub span: Span,
    pub found: Option<String>,
}

/// What an error of the parser says.
pub struct ParserErrorView {
    pub span: Span,
    pub found: Option<Seq<char>>,
}

impl View for ParserError {
    type V = ParserErrorView;

    open spec fn view(&self) -> ParserErrorView {
        ParserErrorView { span: self.span, found: optional_view(self.found) }
    }
}

impl ParserErrorView {
    pub open spec fn message(self) -> Seq<char> {
        "parse error at "@ + self.span.shown() + ": found "@ + match self.found {
            Some(word) => word,
            None => "end of input"@,
        }
    }
}

impl ParserError {
    pub fn span(&self) -> (r: Span)
        ensures
            r == self.span,
    {
        self.span
    }

    pub fn to_string(&self) -> (r: String)
        ensures
            r@ == self@.message(),
    {
        let place: String = self.span.to_string();
        let prefix: String = "parse error at ".to_owned().concat(place.as_str()).concat(
            ": found ",
        );
        match &self.found {
            Some(word) => prefix.concat(word.as_str()),
            None => prefix.concat("end of input"),
        }
    }
}

/// The error for the token at a place of a query of some length in bytes.
pub open spec fn error_at(tokens: Seq<Lexeme>, place: int, length: int) -> ParserErrorView {
    if 0 <= place < tokens.len() {
        ParserErrorView { span: tokens[place].span, found: Some(tokens[place].token.shown()) }
    } else {
        ParserErrorView { span: Span { start: 0, end: length as usize }, found: None }
    }
}

/// Whether a query is what its text says, or the error that of its first token that does not fit.
pub open spec fn parses(source: Seq<u8>, r: Result<Query, ParserError>) -> bool {
    exists|tokens: Seq<Lexeme>| #[trigger]
        lexemes_of_source(tokens, source) && match r {
            Ok(query) => query_of(tokens) == Ok::<QueryView, int>(query@),
            Err(e) => query_of(tokens) matches Err(place) && e@ == error_at(
                tokens,
                place,
                source.len() as int,
            ),
        }
}

/// Parses a query.
pub fn parse(source: &str) -> (r: Result<Query, ParserError>)
    ensures
        parses(source.spec_bytes(), r),
{
    let tokens: Vec<Lexeme> = lexemes(source);
    let length: usize = source.as_bytes().len();
    match read_query(&tokens) {
        Ok(query) => Ok(query),
        Err(place) => {
            let error: ParserError = if place < tokens.len() {
                ParserError {
                    span: tokens[place].span,
                    found: Some(tokens[place].word.clone()),
                }
            } else {
                ParserError { span: Span { start: 0, end: length }, found: None }
            };
            Err(error)
        },
    }
}

/// Finds out whether a text is a query.
pub fn check(source: &str) -> (r: Result<(), ParserError>)
    ensures
        match r {
            Ok(_) => exists|query: Query| parses(source.spec_bytes(), Ok(query)),
            Err(e) => parses(source.spec_bytes(), Err(e)),
        },
{
    match parse(source) {
        Ok(_) => Ok(()),
        Err(e) => Err(e),
    }
}

} // verus!
