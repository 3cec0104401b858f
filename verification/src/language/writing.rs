//! How queries are written: which tokens each part of a query stands for.

use vstd::prelude::*;

use crate::language::ast::{
    AggregateCall, AggregateFunction, BinaryOperator, BoundView, CastKind, Constructor,
    ConstructorKind, Expression, ExpressionKind, FieldReference, Identifier, LiteralKind,
    LogicalType, Measure, NumericLiteralKind, NumericSign, NumericType, Projection, QueryView,
    RemainderFunction, SignedIntegerLiteral, SignedNumericLiteral, SortDirection, SortItem,
    SourceView, StageView, StepView, StringLiteral, TimeDirection, TimeOperation,
    TimeOperationKind, TimeUnit, TimeView, UnaryOperator,
};
use crate::language::grammar::{
    aggregate_at, bound_at, cast_at, expression_at, field_at, group_at, identifier_at,
    is_contextual, joined_from, level_at, list_from, measure_at, operation_at, operations_from,
    operator_of, primary_at, projection_at, query_of, sort_item_at, source_at, span_of, stage_at,
    stages_from, stands, time_at, unary_at, Lexeme, COMPARISON_LEVEL, EXPRESSION_LEVEL,
};
use crate::language::lexer::Token;

verus! {

/// The sign or word that an operator of two operands is written with.
pub open spec fn operator_token(operator: BinaryOperator) -> Token {
    match operator {
        BinaryOperator::Add => Token::OperatorAdd,
        BinaryOperator::Subtract => Token::OperatorSubtract,
        BinaryOperator::Multiply => Token::OperatorMultiply,
        BinaryOperator::Divide => Token::OperatorDivide,
        BinaryOperator::Equal => Token::OperatorEqual,
        BinaryOperator::NotEqual => Token::OperatorNotEqual,
        BinaryOperator::GreaterThan => Token::OperatorGreaterThan,
        BinaryOperator::GreaterThanOrEqual => Token::OperatorGreaterThanOrEqual,
        BinaryOperator::LessThan => Token::OperatorLessThan,
        BinaryOperator::LessThanOrEqual => Token::OperatorLessThanOrEqual,
        BinaryOperator::And => Token::KeywordAnd,
        BinaryOperator::Or => Token::KeywordOr,
    }
}

/// How loosely an operator binds its operands: multiplication binds tightest, then addition, the
/// comparisons, `and`, and `or`.
pub open spec fn looseness(operator: BinaryOperator) -> int {
    match operator {
        BinaryOperator::Multiply | BinaryOperator::Divide => 1,
        BinaryOperator::Add | BinaryOperator::Subtract => 2,
        BinaryOperator::Equal
        | BinaryOperator::NotEqual
        | BinaryOperator::GreaterThan
        | BinaryOperator::GreaterThanOrEqual
        | BinaryOperator::LessThan
        | BinaryOperator::LessThanOrEqual => 3,
        BinaryOperator::And => 4,
        BinaryOperator::Or => 5,
    }
}

/// The word that names a type.
pub open spec fn type_token(logical_type: LogicalType) -> Token {
    match logical_type {
        LogicalType::Bool => Token::KeywordBool,
        LogicalType::Int32 => Token::KeywordInt32,
        LogicalType::Int64 => Token::KeywordInt64,
        LogicalType::UInt32 => Token::KeywordUInt32,
        LogicalType::UInt64 => Token::KeywordUInt64,
        LogicalType::Float32 => Token::KeywordFloat32,
        LogicalType::Float64 => Token::KeywordFloat64,
        LogicalType::Utf8 => Token::KeywordUtf8,
        LogicalType::Datetime => Token::KeywordDatetime,
        LogicalType::Eid => Token::KeywordEid,
        LogicalType::Json => Token::KeywordJson,
    }
}

/// The word that names a numeric type.
pub open spec fn numeric_token(target: NumericType) -> Token {
    match target {
        NumericType::Int32 => Token::KeywordInt32,
        NumericType::Int64 => Token::KeywordInt64,
        NumericType::UInt32 => Token::KeywordUInt32,
        NumericType::UInt64 => Token::KeywordUInt64,
        NumericType::Float32 => Token::KeywordFloat32,
        NumericType::Float64 => Token::KeywordFloat64,
    }
}

/// Whether a name is written as a token: as the name itself, or as a word that is a name where a
/// name is expected.
pub open spec fn name_written(name: Identifier, lexeme: Lexeme) -> bool {
    &&& name.span == lexeme.span
    &&& {
        ||| lexeme.token == Token::Identifier(name.value)
        ||| lexeme.token == Token::QuotedIdentifier(name.value)
        ||| is_contextual(lexeme.token) && lexeme.word == name.value
    }
}

/// Whether the name of a field is written as a token.
pub open spec fn field_written(field: FieldReference, lexeme: Lexeme) -> bool {
    match field {
        FieldReference::User(name) => name_written(name, lexeme),
        FieldReference::System(name) => name.span == lexeme.span && lexeme.token
            == Token::SystemIdentifier(name.value),
    }
}

/// Whether a string is written as the token at `at`.
pub open spec fn string_written(text: StringLiteral, tokens: Seq<Lexeme>, at: int) -> bool {
    0 <= at < tokens.len() && text.span == tokens[at].span && tokens[at].token
        == Token::StringLiteral(text.value)
}

/// Whether a word and a string in parentheses stand from `from` to `to`.
pub open spec fn call_written(
    word: Token,
    text: StringLiteral,
    tokens: Seq<Lexeme>,
    from: int,
    to: int,
) -> bool {
    &&& to == from + 4
    &&& stands(tokens, from, word)
    &&& stands(tokens, from + 1, Token::LeftParenthesis)
    &&& string_written(text, tokens, from + 2)
    &&& stands(tokens, from + 3, Token::RightParenthesis)
}

/// Whether a sign stands at `from`, before the last token: the minus sign, exactly if the number is
/// negative.
pub open spec fn sign_written(sign: NumericSign, tokens: Seq<Lexeme>, from: int, to: int) -> bool {
    match sign {
        NumericSign::Negative => to == from + 2 && stands(tokens, from, Token::OperatorSubtract),
        NumericSign::NonNegative => to == from + 1,
    }
}

/// Whether a number with its sign is written from `from` to `to`.
pub open spec fn number_written(
    number: SignedNumericLiteral,
    tokens: Seq<Lexeme>,
    from: int,
    to: int,
) -> bool {
    &&& 0 <= from < to <= tokens.len()
    &&& number.span == span_of(tokens, from, to)
    &&& sign_written(number.sign, tokens, from, to)
    &&& match number.kind {
        NumericLiteralKind::Integer(magnitude) => tokens[to - 1].token == Token::Integer(magnitude),
        NumericLiteralKind::FloatingPoint(text) => tokens[to - 1].token == Token::FloatingPoint(
            text,
        ),
    }
}

/// Whether an integer with its sign is written from `from` to `to`.
pub open spec fn integer_written(
    number: SignedIntegerLiteral,
    tokens: Seq<Lexeme>,
    from: int,
    to: int,
) -> bool {
    &&& 0 <= from < to <= tokens.len()
    &&& number.span == span_of(tokens, from, to)
    &&& sign_written(number.sign, tokens, from, to)
    &&& tokens[to - 1].token == Token::Integer(number.magnitude)
}

/// Whether a literal of a named type is written from `from` to `to`.
pub open spec fn constructor_written(
    constructor: Constructor,
    tokens: Seq<Lexeme>,
    from: int,
    to: int,
) -> bool {
    &&& constructor.span == span_of(tokens, from, to)
    &&& match constructor.kind {
        ConstructorKind::Numeric { target, literal } => {
            &&& stands(tokens, from, numeric_token(target))
            &&& stands(tokens, from + 1, Token::LeftParenthesis)
            &&& number_written(literal, tokens, from + 2, to - 1)
            &&& literal.kind is FloatingPoint ==> target is Float32 || target is Float64
            &&& stands(tokens, to - 1, Token::RightParenthesis)
        },
        ConstructorKind::Datetime(text) => call_written(
            Token::KeywordDatetime,
            text,
            tokens,
            from,
            to,
        ),
        ConstructorKind::Eid(text) => call_written(Token::KeywordEid, text, tokens, from, to),
    }
}

/// Whether a token is a literal.
pub open spec fn literal_written(kind: LiteralKind, token: Token) -> bool {
    match kind {
        LiteralKind::Integer(value) => token == Token::Integer(value),
        LiteralKind::FloatingPoint(text) => token == Token::FloatingPoint(text),
        LiteralKind::String(text) => token == Token::StringLiteral(text),
        LiteralKind::Null => token == Token::KeywordNull,
        LiteralKind::Boolean(true) => token == Token::KeywordTrue,
        LiteralKind::Boolean(false) => token == Token::KeywordFalse,
    }
}

/// Whether `middle` parts the tokens from `from` to `to` in two.
pub open spec fn parts(from: int, middle: int, to: int) -> bool {
    from < middle < to - 1
}

/// Whether an expression is written from `from` to `to` without an operator, outside parentheses,
/// that binds more loosely than `loosest`. A negative `loosest` leaves no operator at all. Operands
/// are joined from the left, and no comparison is joined to another.
pub open spec fn written(
    expression: Expression,
    tokens: Seq<Lexeme>,
    from: int,
    to: int,
    loosest: int,
) -> bool
    decreases to - from,
{
    &&& 0 <= from < to <= tokens.len()
    &&& expression.span == span_of(tokens, from, to)
    &&& {
        ||| {
            &&& to - from > 2
            &&& tokens[from].token == Token::LeftParenthesis
            &&& tokens[to - 1].token == Token::RightParenthesis
            &&& written(
                Expression {
                    kind: expression.kind,
                    span: span_of(tokens, from + 1, to - 1),
                },
                tokens,
                from + 1,
                to - 1,
                5,
            )
        }
        ||| match expression.kind {
            ExpressionKind::Literal(literal) => {
                &&& to == from + 1
                &&& literal.span == tokens[from].span
                &&& literal_written(literal.kind, tokens[from].token)
            },
            ExpressionKind::Field(field) => to == from + 1 && field_written(field, tokens[from]),
            ExpressionKind::Constructor(constructor) => constructor_written(
                constructor,
                tokens,
                from,
                to,
            ),
            ExpressionKind::Cast(cast) => {
                &&& to - from > 5
                &&& cast.span == span_of(tokens, from, to)
                &&& tokens[from].token == match cast.kind {
                    CastKind::Strict => Token::KeywordCast,
                    CastKind::NullOnFailure => Token::KeywordTryCast,
                }
                &&& tokens[from + 1].token == Token::LeftParenthesis
                &&& written(*cast.expression, tokens, from + 2, to - 3, 5)
                &&& tokens[to - 3].token == Token::KeywordAs
                &&& tokens[to - 2].token == type_token(cast.target)
                &&& tokens[to - 1].token == Token::RightParenthesis
            },
            ExpressionKind::Remainder(remainder) => {
                &&& remainder.span == span_of(tokens, from, to)
                &&& call_written(
                    match remainder.function {
                        RemainderFunction::Value => Token::KeywordRest,
                        RemainderFunction::Exists => Token::KeywordRestExists,
                    },
                    remainder.key,
                    tokens,
                    from,
                    to,
                )
            },
            ExpressionKind::Unary { operator, operand } => {
                &&& loosest >= 0
                &&& tokens[from].token == match operator {
                    UnaryOperator::Not => Token::KeywordNot,
                    UnaryOperator::Negate => Token::OperatorSubtract,
                }
                &&& written(*operand, tokens, from + 1, to, -1)
            },
            ExpressionKind::Binary { operator, left, right } => {
                &&& loosest >= looseness(operator)
                &&& exists|middle: int|
                    {
                        &&& #[trigger] parts(from, middle, to)
                        &&& tokens[middle].token == operator_token(operator)
                        &&& written(
                            *left,
                            tokens,
                            from,
                            middle,
                            if looseness(operator) == 3 {
                                2
                            } else {
                                looseness(operator)
                            },
                        )
                        &&& written(*right, tokens, middle + 1, to, looseness(operator) - 1)
                    }
            },
        }
    }
}

proof fn lemma_primary(tokens: Seq<Lexeme>, at: int)
    requires
        0 <= at,
    ensures
        primary_at(tokens, at) matches Ok((expression, next)) ==> written(
            expression,
            tokens,
            at,
            next,
            -1,
        ),
    decreases tokens.len() - at, 0nat,
{
    if at < tokens.len() {
        let token = tokens[at].token;
        if token == Token::LeftParenthesis {
            lemma_level(tokens, at + 1, EXPRESSION_LEVEL as nat);
        } else if token == Token::KeywordCast {
            lemma_cast(tokens, at, CastKind::Strict);
        } else if token == Token::KeywordTryCast {
            lemma_cast(tokens, at, CastKind::NullOnFailure);
        }
    }
}

proof fn lemma_cast(tokens: Seq<Lexeme>, at: int, kind: CastKind)
    requires
        0 <= at,
        stands(
            tokens,
            at,
            match kind {
                CastKind::Strict => Token::KeywordCast,
                CastKind::NullOnFailure => Token::KeywordTryCast,
            },
        ),
    ensures
        cast_at(tokens, at, kind) matches Ok((expression, next)) ==> written(
            expression,
            tokens,
            at,
            next,
            -1,
        ),
    decreases tokens.len() - at - 1, 8nat,
{
    if stands(tokens, at + 1, Token::LeftParenthesis) {
        lemma_level(tokens, at + 2, EXPRESSION_LEVEL as nat);
    }
}

proof fn lemma_unary(tokens: Seq<Lexeme>, at: int)
    requires
        0 <= at,
    ensures
        unary_at(tokens, at) matches Ok((expression, next)) ==> written(
            expression,
            tokens,
            at,
            next,
            0,
        ),
    decreases tokens.len() - at, 1nat,
{
    if stands(tokens, at, Token::KeywordNot) || stands(tokens, at, Token::OperatorSubtract) {
        lemma_primary(tokens, at + 1);
    } else {
        lemma_primary(tokens, at);
    }
}

proof fn lemma_level(tokens: Seq<Lexeme>, at: int, level: nat)
    requires
        0 <= at,
        level <= 5,
    ensures
        level_at(tokens, at, level) matches Ok((expression, next)) ==> written(
            expression,
            tokens,
            at,
            next,
            level as int,
        ),
    decreases tokens.len() - at, level + 2,
{
    if level == 0 {
        lemma_unary(tokens, at);
    } else {
        lemma_level(tokens, at, (level - 1) as nat);
        if let Ok((left, next)) = level_at(tokens, at, (level - 1) as nat) {
            lemma_joined(tokens, at, next, left, level);
        }
    }
}

proof fn lemma_joined(tokens: Seq<Lexeme>, start: int, at: int, left: Expression, level: nat)
    requires
        0 <= start < at,
        1 <= level <= 5,
        written(
            left,
            tokens,
            start,
            at,
            if level == 3 {
                2
            } else {
                level as int
            },
        ),
    ensures
        joined_from(tokens, start, at, left, level) matches Ok((expression, next)) ==> written(
            expression,
            tokens,
            start,
            next,
            level as int,
        ),
    decreases tokens.len() - at, 0nat,
{
    if at < tokens.len() {
        if let Some(operator) = operator_of(tokens[at].token, level) {
            lemma_level(tokens, at + 1, (level - 1) as nat);
            if let Ok((right, next)) = level_at(tokens, at + 1, (level - 1) as nat) {
                let joined = Expression {
                    kind: ExpressionKind::Binary {
                        operator,
                        left: Box::new(left),
                        right: Box::new(right),
                    },
                    span: span_of(tokens, start, next),
                };
                assert(parts(start, at, next));
                assert(tokens[at].token == operator_token(operator));
                assert(looseness(operator) == level);
                assert(written(joined, tokens, start, next, level as int));
                if level != COMPARISON_LEVEL {
                    lemma_joined(tokens, start, next, joined, level);
                }
            }
        }
    }
}

/// An expression that was read is written by the tokens that it was read from: the operators bind
/// in their order, from the left, and every operator, literal, name, type and sign of the
/// expression is that of the tokens.
pub proof fn expressions_are_read_as_written(tokens: Seq<Lexeme>, at: int)
    requires
        0 <= at,
    ensures
        expression_at(tokens, at) matches Ok((expression, next)) ==> written(
            expression,
            tokens,
            at,
            next,
            5,
        ),
{
    lemma_level(tokens, at, EXPRESSION_LEVEL as nat);
}

/// The word that a unit of time is written with.
pub open spec fn unit_token(unit: TimeUnit) -> Token {
    match unit {
        TimeUnit::Second => Token::KeywordSecond,
        TimeUnit::Minute => Token::KeywordMinute,
        TimeUnit::Hour => Token::KeywordHour,
        TimeUnit::Day => Token::KeywordDay,
    }
}

/// The short form of a truncation to a unit of time.
pub open spec fn unit_mark(unit: TimeUnit) -> Seq<char> {
    match unit {
        TimeUnit::Second => "@s"@,
        TimeUnit::Minute => "@m"@,
        TimeUnit::Hour => "@h"@,
        TimeUnit::Day => "@d"@,
    }
}

/// Whether a step of a relative time is written from `from` to `to`: a truncation as its short form
/// or as an at sign and a unit, a shift as its sign, a number that is left out only for one, and a
/// unit.
pub open spec fn step_written(
    step: TimeOperation,
    tokens: Seq<Lexeme>,
    from: int,
    to: int,
) -> bool {
    &&& 0 <= from < to <= tokens.len()
    &&& step.span == span_of(tokens, from, to)
    &&& match step.kind {
        TimeOperationKind::Truncate(unit) => {
            ||| {
                &&& to == from + 1
                &&& tokens[from].token matches Token::SystemIdentifier(text)
                &&& text@ == unit_mark(unit)
            }
            ||| {
                &&& to == from + 2
                &&& tokens[from].token == Token::At
                &&& tokens[from + 1].token == unit_token(unit)
            }
        },
        TimeOperationKind::Shift { direction, magnitude, unit } => {
            &&& tokens[from].token == match direction {
                TimeDirection::Forward => Token::OperatorAdd,
                TimeDirection::Backward => Token::OperatorSubtract,
            }
            &&& tokens[to - 1].token == unit_token(unit)
            &&& {
                ||| to == from + 2 && magnitude.0 == 1
                ||| to == from + 3 && magnitude.0 > 0 && tokens[from + 1].token == Token::Integer(
                    magnitude.0,
                )
            }
        },
    }
}

/// Whether steps of a relative time are written, one behind another, from `from` to `to`.
pub open spec fn steps_written(
    steps: Seq<TimeOperation>,
    tokens: Seq<Lexeme>,
    from: int,
    to: int,
) -> bool
    decreases steps.len(),
{
    if steps.len() == 0 {
        from == to
    } else {
        exists|middle: int|
            #![trigger step_written(steps.last(), tokens, middle, to)]
            steps_written(steps.drop_last(), tokens, from, middle) && step_written(
                steps.last(),
                tokens,
                middle,
                to,
            )
    }
}

/// Whether a bound is written from `from` to `to`.
pub open spec fn time_written(time: TimeView, tokens: Seq<Lexeme>, from: int, to: int) -> bool {
    &&& 0 <= from < to <= tokens.len()
    &&& time.span == span_of(tokens, from, to)
    &&& match time.kind {
        BoundView::Datetime(text) => call_written(Token::KeywordDatetime, text, tokens, from, to),
        BoundView::Now => to == from + 1 && tokens[from].token == Token::KeywordNow,
        BoundView::Relative(steps) => steps.len() > 0 && steps_written(steps, tokens, from, to),
    }
}

/// Whether an optional bound is written, behind its word and an equals sign, from `from` to `to`.
pub open spec fn bound_written(
    bound: Option<TimeView>,
    word: Token,
    tokens: Seq<Lexeme>,
    from: int,
    to: int,
) -> bool {
    match bound {
        None => from == to && !stands(tokens, from, word),
        Some(time) => {
            &&& stands(tokens, from, word)
            &&& stands(tokens, from + 1, Token::OperatorAssign)
            &&& time_written(time, tokens, from + 2, to)
        },
    }
}

/// Whether the source of a query is written from `from` to `to`: its word, its name, the bound that
/// it includes, and the bound that it excludes.
pub open spec fn source_written(source: SourceView, tokens: Seq<Lexeme>, from: int, to: int) -> bool {
    &&& 0 <= from
    &&& from + 1 < to <= tokens.len()
    &&& source.span == span_of(tokens, from, to)
    &&& tokens[from].token == Token::KeywordSource
    &&& name_written(source.name, tokens[from + 1])
    &&& exists|middle: int|
        #![trigger bound_written(source.end_exclusive, Token::KeywordEndExclusive, tokens, middle, to)]
        bound_written(
            source.start_inclusive,
            Token::KeywordStartInclusive,
            tokens,
            from + 2,
            middle,
        ) && bound_written(
            source.end_exclusive,
            Token::KeywordEndExclusive,
            tokens,
            middle,
            to,
        )
}

/// Whether items are written from `from` to `to` with commas between them.
pub open spec fn list_written<T>(
    items: Seq<T>,
    item: spec_fn(T, int, int) -> bool,
    tokens: Seq<Lexeme>,
    from: int,
    to: int,
) -> bool
    decreases items.len(),
{
    if items.len() == 0 {
        false
    } else if items.len() == 1 {
        item(items[0], from, to)
    } else {
        exists|comma: int|
            {
                &&& #[trigger] stands(tokens, comma, Token::Comma)
                &&& list_written(items.drop_last(), item, tokens, from, comma)
                &&& item(items.last(), comma + 1, to)
            }
    }
}

/// Whether an output field is written from `from` to `to`: a name, an equals sign and an expression,
/// or the name of a field, or another expression.
pub open spec fn projection_written(
    projection: Projection,
    tokens: Seq<Lexeme>,
    from: int,
    to: int,
) -> bool {
    &&& 0 <= from < to <= tokens.len()
    &&& match projection {
        Projection::Computed(computed) => {
            &&& computed.span == span_of(tokens, from, to)
            &&& name_written(computed.alias, tokens[from])
            &&& stands(tokens, from + 1, Token::OperatorAssign)
            &&& written(computed.expression, tokens, from + 2, to, 5)
        },
        Projection::Field(field) => to == from + 1 && field_written(field, tokens[from]),
        Projection::Unaliased(expression) => {
            &&& written(expression, tokens, from, to, 5)
            &&& !(to == from + 1 && expression.kind is Field)
        },
    }
}

/// Whether a field to sort by is written from `from` to `to`: behind a minus sign exactly if its
/// values descend. A plus sign may be left out.
pub open spec fn sort_item_written(item: SortItem, tokens: Seq<Lexeme>, from: int, to: int) -> bool {
    &&& 0 <= from < to <= tokens.len()
    &&& item.span == span_of(tokens, from, to)
    &&& field_written(item.field, tokens[to - 1])
    &&& match item.direction {
        SortDirection::Descending => to == from + 2 && tokens[from].token
            == Token::OperatorSubtract,
        SortDirection::Ascending => to == from + 1 || to == from + 2 && tokens[from].token
            == Token::OperatorAdd,
    }
}

/// The word that a function of the rows of a group is written with.
pub open spec fn function_token(function: AggregateFunction) -> Token {
    match function {
        AggregateFunction::Count => Token::KeywordCount,
        AggregateFunction::Sum => Token::KeywordSum,
        AggregateFunction::Min => Token::KeywordMin,
        AggregateFunction::Max => Token::KeywordMax,
        AggregateFunction::Avg => Token::KeywordAvg,
    }
}

/// Whether a function and its optional field, in parentheses, are written from `from` to `to`.
pub open spec fn aggregate_written(
    aggregate: AggregateCall,
    tokens: Seq<Lexeme>,
    from: int,
    to: int,
) -> bool {
    &&& 0 <= from
    &&& from + 3 <= to <= tokens.len()
    &&& aggregate.span == span_of(tokens, from, to)
    &&& tokens[from].token == function_token(aggregate.function)
    &&& tokens[from + 1].token == Token::LeftParenthesis
    &&& tokens[to - 1].token == Token::RightParenthesis
    &&& match aggregate.argument {
        Some(field) => to == from + 4 && field_written(field, tokens[from + 2]),
        None => to == from + 3,
    }
}

/// Whether an output field of a summary is written from `from` to `to`.
pub open spec fn measure_written(measure: Measure, tokens: Seq<Lexeme>, from: int, to: int) -> bool {
    &&& 0 <= from < to <= tokens.len()
    &&& measure.span == span_of(tokens, from, to)
    &&& match measure.alias {
        None => aggregate_written(measure.aggregate, tokens, from, to),
        Some(alias) => {
            &&& name_written(alias, tokens[from])
            &&& stands(tokens, from + 1, Token::OperatorAssign)
            &&& aggregate_written(measure.aggregate, tokens, from + 2, to)
        },
    }
}

/// Whether a stage is written from `from` to `to`.
pub open spec fn stage_written(stage: StageView, tokens: Seq<Lexeme>, from: int, to: int) -> bool {
    &&& 0 <= from < to <= tokens.len()
    &&& stage.span == span_of(tokens, from, to)
    &&& match stage.kind {
        StepView::Filter(condition) => tokens[from].token == Token::KeywordFilter && written(
            condition,
            tokens,
            from + 1,
            to,
            5,
        ),
        StepView::Project(projections) => tokens[from].token == Token::KeywordProject
            && list_written(
            projections,
            |projection: Projection, start: int, end: int|
                projection_written(projection, tokens, start, end),
            tokens,
            from + 1,
            to,
        ),
        StepView::Sort(items) => tokens[from].token == Token::KeywordSort && list_written(
            items,
            |item: SortItem, start: int, end: int| sort_item_written(item, tokens, start, end),
            tokens,
            if stands(tokens, from + 1, Token::KeywordBy) {
                from + 2
            } else {
                from + 1
            },
            to,
        ),
        StepView::Take(count) => tokens[from].token == Token::KeywordTake && integer_written(
            count,
            tokens,
            from + 1,
            to,
        ),
        StepView::Summarize { measures, group_by } => {
            &&& tokens[from].token == Token::KeywordSummarize
            &&& summary_written(measures, group_by, tokens, from + 1, to)
        },
    }
}

/// Whether the output fields of a summary and the fields that rows are grouped by are written from
/// `from` to `to`.
pub open spec fn summary_written(
    measures: Seq<Measure>,
    group_by: Seq<FieldReference>,
    tokens: Seq<Lexeme>,
    from: int,
    to: int,
) -> bool {
    exists|middle: int|
        measures_written(measures, tokens, from, middle) && #[trigger] groups_written(
            group_by,
            tokens,
            middle,
            to,
        )
}

/// Whether output fields of a summary are written from `from` to `to` with commas between them.
pub open spec fn measures_written(
    measures: Seq<Measure>,
    tokens: Seq<Lexeme>,
    from: int,
    to: int,
) -> bool {
    list_written(
        measures,
        |measure: Measure, start: int, end: int| measure_written(measure, tokens, start, end),
        tokens,
        from,
        to,
    )
}

/// Whether the fields that rows are grouped by, if there are any, are written behind `by` from
/// `from` to `to`.
pub open spec fn groups_written(
    group_by: Seq<FieldReference>,
    tokens: Seq<Lexeme>,
    from: int,
    to: int,
) -> bool {
    if group_by.len() == 0 {
        from == to && !stands(tokens, from, Token::KeywordBy)
    } else {
        stands(tokens, from, Token::KeywordBy) && list_written(
            group_by,
            |field: FieldReference, start: int, end: int|
                end == start + 1 && 0 <= start < tokens.len() && field_written(
                    field,
                    tokens[start],
                ),
            tokens,
            from + 1,
            to,
        )
    }
}

/// Whether stages are written, each behind a pipe, from `from` to `to`.
pub open spec fn stages_written(
    stages: Seq<StageView>,
    tokens: Seq<Lexeme>,
    from: int,
    to: int,
) -> bool
    decreases stages.len(),
{
    if stages.len() == 0 {
        from == to
    } else {
        exists|pipe: int|
            {
                &&& #[trigger] stands(tokens, pipe, Token::Pipe)
                &&& stages_written(stages.drop_last(), tokens, from, pipe)
                &&& stage_written(stages.last(), tokens, pipe + 1, to)
            }
    }
}

/// Whether a query is written by tokens.
pub open spec fn query_written(query: QueryView, tokens: Seq<Lexeme>) -> bool {
    &&& query.span == span_of(tokens, 0, tokens.len() as int)
    &&& exists|middle: int|
        #![trigger source_written(query.source, tokens, 0, middle)]
        source_written(query.source, tokens, 0, middle) && stages_written(
            query.stages,
            tokens,
            middle,
            tokens.len() as int,
        )
}

proof fn lemma_step(tokens: Seq<Lexeme>, at: int)
    requires
        0 <= at,
    ensures
        operation_at(tokens, at) matches Ok((step, next)) ==> step_written(
            step,
            tokens,
            at,
            next,
        ),
{
}

proof fn lemma_steps(tokens: Seq<Lexeme>, start: int, at: int, found: Seq<TimeOperation>)
    requires
        0 <= start <= at <= tokens.len(),
        steps_written(found, tokens, start, at),
    ensures
        operations_from(tokens, at, found) matches Ok((steps, next)) ==> {
            &&& steps_written(steps, tokens, start, next)
            &&& steps.len() >= found.len()
            &&& operation_at(tokens, at) is Ok ==> steps.len() > found.len() && at < next
            &&& at <= next <= tokens.len()
        },
    decreases tokens.len() - at,
{
    lemma_step(tokens, at);
    if let Ok((step, next)) = operation_at(tokens, at) {
        let longer = found.push(step);
        assert(longer.drop_last() =~= found);
        assert(step_written(longer.last(), tokens, at, next));
        assert(steps_written(longer, tokens, start, next));
        lemma_steps(tokens, start, next, longer);
    }
}

proof fn lemma_time(tokens: Seq<Lexeme>, at: int)
    requires
        0 <= at,
    ensures
        time_at(tokens, at) matches Ok((time, next)) ==> time_written(time, tokens, at, next),
{
    if at <= tokens.len() {
        assert(steps_written(Seq::empty(), tokens, at, at));
        lemma_steps(tokens, at, at, Seq::empty());
        lemma_step(tokens, at);
    }
}

proof fn lemma_source(tokens: Seq<Lexeme>, at: int)
    requires
        0 <= at,
    ensures
        source_at(tokens, at) matches Ok((source, next)) ==> source_written(
            source,
            tokens,
            at,
            next,
        ),
{
    if stands(tokens, at, Token::KeywordSource) {
        if let Ok((name, behind)) = identifier_at(tokens, at + 1) {
            lemma_time(tokens, behind + 2);
            if let Ok((start, middle)) = bound_at(tokens, behind, Token::KeywordStartInclusive) {
                lemma_time(tokens, middle + 2);
                if let Ok((end, next)) = bound_at(tokens, middle, Token::KeywordEndExclusive) {
                    assert(bound_written(start, Token::KeywordStartInclusive, tokens, at + 2, middle));
                    assert(bound_written(end, Token::KeywordEndExclusive, tokens, middle, next));
                }
            }
        }
    }
}

proof fn lemma_list<T>(
    tokens: Seq<Lexeme>,
    start: int,
    at: int,
    rule: spec_fn(int) -> Result<(T, int), int>,
    item: spec_fn(T, int, int) -> bool,
    found: Seq<T>,
)
    requires
        forall|place: int|
            0 <= place ==> (#[trigger] rule(place) matches Ok((value, next)) ==> item(
                value,
                place,
                next,
            )),
        0 <= start <= at,
        if found.len() == 0 {
            start == at
        } else {
            stands(tokens, at - 1, Token::Comma) && list_written(
                found,
                item,
                tokens,
                start,
                at - 1,
            )
        },
    ensures
        list_from(tokens, at, rule, found) matches Ok((items, next)) ==> list_written(
            items,
            item,
            tokens,
            start,
            next,
        ) && start < next <= tokens.len(),
    decreases tokens.len() - at,
{
    if let Ok((value, next)) = rule(at) {
        if at < next <= tokens.len() {
            let longer = found.push(value);
            assert(longer.drop_last() =~= found);
            assert(item(value, at, next));
            assert(list_written(longer, item, tokens, start, next));
            if stands(tokens, next, Token::Comma) {
                lemma_list(tokens, start, next + 1, rule, item, longer);
            }
        }
    }
}

proof fn lemma_projection(tokens: Seq<Lexeme>, at: int)
    requires
        0 <= at,
    ensures
        projection_at(tokens, at) matches Ok((projection, next)) ==> projection_written(
            projection,
            tokens,
            at,
            next,
        ),
{
    expressions_are_read_as_written(tokens, at);
    if let Ok((alias, next)) = identifier_at(tokens, at) {
        expressions_are_read_as_written(tokens, next + 1);
    }
}

/// A field to sort by that was read is sorted in descending order exactly if it begins with the
/// minus sign.
pub proof fn sort_items_descend_only_behind_a_minus_sign(tokens: Seq<Lexeme>, at: int)
    requires
        0 <= at,
    ensures
        sort_item_at(tokens, at) matches Ok((item, next)) ==> {
            &&& sort_item_written(item, tokens, at, next)
            &&& item.direction == SortDirection::Descending <==> tokens[at].token
                == Token::OperatorSubtract
        },
{
}

/// A field to sort by without a sign is sorted just as the same field behind a plus sign.
pub proof fn the_plus_sign_of_a_sort_item_may_be_left_out(
    tokens: Seq<Lexeme>,
    at: int,
    plus: Lexeme,
)
    requires
        0 <= at <= tokens.len(),
        plus.token == Token::OperatorAdd,
        !stands(tokens, at, Token::OperatorAdd),
        !stands(tokens, at, Token::OperatorSubtract),
    ensures
        match (sort_item_at(tokens, at), sort_item_at(tokens.insert(at, plus), at)) {
            (Ok((item, next)), Ok((signed, behind))) => {
                &&& behind == next + 1
                &&& signed.field == item.field
                &&& signed.direction == item.direction
            },
            (Err(place), Err(moved)) => moved == place + 1,
            _ => false,
        },
{
    let signed = tokens.insert(at, plus);
    assert(signed[at] == plus);
    if at < tokens.len() {
        assert(signed[at + 1] == tokens[at]);
    }
}

proof fn lemma_measure(tokens: Seq<Lexeme>, at: int)
    requires
        0 <= at,
    ensures
        measure_at(tokens, at) matches Ok((measure, next)) ==> measure_written(
            measure,
            tokens,
            at,
            next,
        ),
{
    lemma_aggregate(tokens, at);
    if let Ok((alias, next)) = identifier_at(tokens, at) {
        lemma_aggregate(tokens, next + 1);
    }
}

proof fn lemma_aggregate(tokens: Seq<Lexeme>, at: int)
    requires
        0 <= at,
    ensures
        aggregate_at(tokens, at) matches Ok((aggregate, next)) ==> aggregate_written(
            aggregate,
            tokens,
            at,
            next,
        ),
{
}

proof fn lemma_groups(tokens: Seq<Lexeme>, at: int)
    requires
        0 <= at <= tokens.len(),
    ensures
        group_at(tokens, at) matches Ok((group_by, next)) ==> groups_written(
            group_by,
            tokens,
            at,
            next,
        ) && at <= next <= tokens.len(),
{
    let item = |field: FieldReference, start: int, end: int|
        end == start + 1 && 0 <= start < tokens.len() && field_written(field, tokens[start]);
    lemma_list(
        tokens,
        at + 1,
        at + 1,
        |place: int| field_at(tokens, place),
        item,
        Seq::empty(),
    );
}

proof fn lemma_stage(tokens: Seq<Lexeme>, at: int)
    requires
        0 <= at,
    ensures
        stage_at(tokens, at) matches Ok((stage, next)) ==> stage_written(stage, tokens, at, next),
{
    if at < tokens.len() {
        match tokens[at].token {
            Token::KeywordFilter => {
                expressions_are_read_as_written(tokens, at + 1);
            },
            Token::KeywordProject => {
                let rule = |place: int| projection_at(tokens, place);
                let item = |projection: Projection, start: int, end: int|
                    projection_written(projection, tokens, start, end);
                assert forall|place: int| 0 <= place implies (#[trigger] rule(
                    place,
                ) matches Ok((value, next)) ==> item(value, place, next)) by {
                    lemma_projection(tokens, place);
                }
                lemma_list(tokens, at + 1, at + 1, rule, item, Seq::empty());
                assert(stage_at(tokens, at) matches Ok((stage, next)) ==> stage_written(
                    stage,
                    tokens,
                    at,
                    next,
                ));
            },
            Token::KeywordSort => {
                let place = if stands(tokens, at + 1, Token::KeywordBy) {
                    at + 2
                } else {
                    at + 1
                };
                let rule = |place: int| sort_item_at(tokens, place);
                let item = |item: SortItem, start: int, end: int|
                    sort_item_written(item, tokens, start, end);
                assert forall|place: int| 0 <= place implies (#[trigger] rule(
                    place,
                ) matches Ok((value, next)) ==> item(value, place, next)) by {
                    sort_items_descend_only_behind_a_minus_sign(tokens, place);
                }
                lemma_list(tokens, place, place, rule, item, Seq::empty());
                assert(stage_at(tokens, at) matches Ok((stage, next)) ==> stage_written(
                    stage,
                    tokens,
                    at,
                    next,
                ));
            },
            Token::KeywordTake => {
            },
            Token::KeywordSummarize => {
                let rule = |place: int| measure_at(tokens, place);
                let item = |measure: Measure, start: int, end: int|
                    measure_written(measure, tokens, start, end);
                assert forall|place: int| 0 <= place implies (#[trigger] rule(
                    place,
                ) matches Ok((value, next)) ==> item(value, place, next)) by {
                    lemma_measure(tokens, place);
                }
                lemma_list(tokens, at + 1, at + 1, rule, item, Seq::empty());
                if let Ok((measures, middle)) = list_from(tokens, at + 1, rule, Seq::empty()) {
                    lemma_groups(tokens, middle);
                    assert(measures_written(measures, tokens, at + 1, middle));
                    if let Ok((group_by, next)) = group_at(tokens, middle) {
                        assert(groups_written(group_by, tokens, middle, next));
                        assert(summary_written(measures, group_by, tokens, at + 1, next));
                    }
                }
                assert(stage_at(tokens, at) matches Ok((stage, next)) ==> stage_written(
                    stage,
                    tokens,
                    at,
                    next,
                ));
            },
            _ => {},
        }
    }
}

proof fn lemma_stages(tokens: Seq<Lexeme>, start: int, at: int, found: Seq<StageView>)
    requires
        0 <= start <= at <= tokens.len(),
        stages_written(found, tokens, start, at),
    ensures
        stages_from(tokens, at, found) matches Ok((stages, next)) ==> stages_written(
            stages,
            tokens,
            start,
            next,
        ),
    decreases tokens.len() - at,
{
    if stands(tokens, at, Token::Pipe) {
        lemma_stage(tokens, at + 1);
        if let Ok((stage, next)) = stage_at(tokens, at + 1) {
            let longer = found.push(stage);
            assert(longer.drop_last() =~= found);
            assert(stages_written(longer, tokens, start, next));
            lemma_stages(tokens, start, next, longer);
        }
    }
}

/// A query that was read is written by the tokens that it was read from: each bound, stage, item,
/// name, sign, number and operator of it is that of the tokens, in their order, and no token is left
/// over.
pub proof fn queries_are_read_as_written(tokens: Seq<Lexeme>)
    ensures
        query_of(tokens) matches Ok(query) ==> query_written(query, tokens),
{
    lemma_source(tokens, 0);
    if let Ok((source, middle)) = source_at(tokens, 0) {
        assert(stages_written(Seq::empty(), tokens, middle, middle));
        lemma_stages(tokens, middle, middle, Seq::empty());
    }
}

} // verus!
