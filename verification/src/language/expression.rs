//! Types of expressions.

use vstd::prelude::*;
use vstd::string::*;

use crate::catalog::{LogicalType, Nullability};
use crate::language::ast;
use crate::language::ast::{FieldReference, LiteralKind, NumericSign};
use crate::language::error::{
    diagnostic_views, Diagnostic, DiagnosticCode, DiagnosticSeverity, DiagnosticView, Reason,
    SemanticError,
};
use crate::language::floats::FloatFacts;
use crate::language::fold::{
    binary_folded, fold_binary, fold_unary, folding_asks_only_for_unknowns, unary_folded, FoldFault,
};
use crate::language::ir::{
    field_named, BinaryOperator, CastKind, Expression, ExpressionKind, Field, FloatConstant,
    FloatMagnitude, Literal, NullPredicate, Relation, RemainderFunction, UnaryOperator,
};
use crate::language::literal::{
    constructed, contextual_integer, contextual_literal, convert_constructor, convert_literal,
    has_numeric, integer_float, integer_literal, is_numeric, make_integer_float,
};
use crate::language::span::Span;
use crate::text::{debug_text, text_debug};

verus! {

/// The name of the field that holds the remainder of a record.
pub const REMAINDER_FIELD_NAME: &'static str = "@rest";

/// The type that a type of a query is.
pub open spec fn catalog_type(logical_type: ast::LogicalType) -> LogicalType {
    match logical_type {
        ast::LogicalType::Bool => LogicalType::Bool,
        ast::LogicalType::Int32 => LogicalType::Int32,
        ast::LogicalType::Int64 => LogicalType::Int64,
        ast::LogicalType::UInt32 => LogicalType::UInt32,
        ast::LogicalType::UInt64 => LogicalType::UInt64,
        ast::LogicalType::Float32 => LogicalType::Float32,
        ast::LogicalType::Float64 => LogicalType::Float64,
        ast::LogicalType::Utf8 => LogicalType::Utf8,
        ast::LogicalType::Datetime => LogicalType::Datetime,
        ast::LogicalType::Eid => LogicalType::Eid,
        ast::LogicalType::Json => LogicalType::Json,
    }
}

fn logical_type(named: ast::LogicalType) -> (r: LogicalType)
    ensures
        r == catalog_type(named),
{
    match named {
        ast::LogicalType::Bool => LogicalType::Bool,
        ast::LogicalType::Int32 => LogicalType::Int32,
        ast::LogicalType::Int64 => LogicalType::Int64,
        ast::LogicalType::UInt32 => LogicalType::UInt32,
        ast::LogicalType::UInt64 => LogicalType::UInt64,
        ast::LogicalType::Float32 => LogicalType::Float32,
        ast::LogicalType::Float64 => LogicalType::Float64,
        ast::LogicalType::Utf8 => LogicalType::Utf8,
        ast::LogicalType::Datetime => LogicalType::Datetime,
        ast::LogicalType::Eid => LogicalType::Eid,
        ast::LogicalType::Json => LogicalType::Json,
    }
}

/// The operator of a pipeline that an operator of a query is.
pub open spec fn pipeline_operator(operator: ast::BinaryOperator) -> BinaryOperator {
    match operator {
        ast::BinaryOperator::Add => BinaryOperator::Add,
        ast::BinaryOperator::Subtract => BinaryOperator::Subtract,
        ast::BinaryOperator::Multiply => BinaryOperator::Multiply,
        ast::BinaryOperator::Divide => BinaryOperator::Divide,
        ast::BinaryOperator::Equal => BinaryOperator::Equal,
        ast::BinaryOperator::NotEqual => BinaryOperator::NotEqual,
        ast::BinaryOperator::GreaterThan => BinaryOperator::GreaterThan,
        ast::BinaryOperator::GreaterThanOrEqual => BinaryOperator::GreaterThanOrEqual,
        ast::BinaryOperator::LessThan => BinaryOperator::LessThan,
        ast::BinaryOperator::LessThanOrEqual => BinaryOperator::LessThanOrEqual,
        ast::BinaryOperator::And => BinaryOperator::And,
        ast::BinaryOperator::Or => BinaryOperator::Or,
    }
}

fn binary_operator(operator: ast::BinaryOperator) -> (r: BinaryOperator)
    ensures
        r == pipeline_operator(operator),
{
    match operator {
        ast::BinaryOperator::Add => BinaryOperator::Add,
        ast::BinaryOperator::Subtract => BinaryOperator::Subtract,
        ast::BinaryOperator::Multiply => BinaryOperator::Multiply,
        ast::BinaryOperator::Divide => BinaryOperator::Divide,
        ast::BinaryOperator::Equal => BinaryOperator::Equal,
        ast::BinaryOperator::NotEqual => BinaryOperator::NotEqual,
        ast::BinaryOperator::GreaterThan => BinaryOperator::GreaterThan,
        ast::BinaryOperator::GreaterThanOrEqual => BinaryOperator::GreaterThanOrEqual,
        ast::BinaryOperator::LessThan => BinaryOperator::LessThan,
        ast::BinaryOperator::LessThanOrEqual => BinaryOperator::LessThanOrEqual,
        ast::BinaryOperator::And => BinaryOperator::And,
        ast::BinaryOperator::Or => BinaryOperator::Or,
    }
}

pub open spec fn is_logical(operator: ast::BinaryOperator) -> bool {
    operator == ast::BinaryOperator::And || operator == ast::BinaryOperator::Or
}

pub open spec fn is_arithmetic(operator: ast::BinaryOperator) -> bool {
    operator == ast::BinaryOperator::Add || operator == ast::BinaryOperator::Subtract || operator
        == ast::BinaryOperator::Multiply || operator == ast::BinaryOperator::Divide
}

pub open spec fn is_equality(operator: ast::BinaryOperator) -> bool {
    operator == ast::BinaryOperator::Equal || operator == ast::BinaryOperator::NotEqual
}

/// Whether every value of one type is a value of another.
pub open spec fn widens(source: LogicalType, target: LogicalType) -> bool {
    ||| source == target
    ||| match source {
        LogicalType::Int32 => target == LogicalType::Int64 || target == LogicalType::Float64,
        LogicalType::UInt32 => target == LogicalType::UInt64 || target == LogicalType::Float64,
        LogicalType::Float32 => target == LogicalType::Float64,
        _ => false,
    }
}

fn can_widen(source: LogicalType, target: LogicalType) -> (r: bool)
    ensures
        r == widens(source, target),
{
    source == target || match source {
        LogicalType::Int32 => target == LogicalType::Int64 || target == LogicalType::Float64,
        LogicalType::UInt32 => target == LogicalType::UInt64 || target == LogicalType::Float64,
        LogicalType::Float32 => target == LogicalType::Float64,
        _ => false,
    }
}

/// Whether both of two types widen to a third.
pub open spec fn both_widen(left: LogicalType, right: LogicalType, target: LogicalType) -> bool {
    widens(left, target) && widens(right, target)
}

/// The least numeric type that two types widen to.
pub open spec fn common_type(left: LogicalType, right: LogicalType) -> Option<LogicalType> {
    if both_widen(left, right, LogicalType::Int32) {
        Some(LogicalType::Int32)
    } else if both_widen(left, right, LogicalType::UInt32) {
        Some(LogicalType::UInt32)
    } else if both_widen(left, right, LogicalType::Int64) {
        Some(LogicalType::Int64)
    } else if both_widen(left, right, LogicalType::UInt64) {
        Some(LogicalType::UInt64)
    } else if both_widen(left, right, LogicalType::Float32) {
        Some(LogicalType::Float32)
    } else if both_widen(left, right, LogicalType::Float64) {
        Some(LogicalType::Float64)
    } else {
        None
    }
}

fn common_numeric_type(left: LogicalType, right: LogicalType) -> (r: Option<LogicalType>)
    ensures
        r == common_type(left, right),
{
    let candidates: [LogicalType; 6] = [
        LogicalType::Int32,
        LogicalType::UInt32,
        LogicalType::Int64,
        LogicalType::UInt64,
        LogicalType::Float32,
        LogicalType::Float64,
    ];
    let mut index: usize = 0;
    while index < 6
        invariant
            index <= 6,
            candidates@ =~= seq![
                LogicalType::Int32,
                LogicalType::UInt32,
                LogicalType::Int64,
                LogicalType::UInt64,
                LogicalType::Float32,
                LogicalType::Float64,
            ],
            forall|i: int|
                0 <= i < index ==> !both_widen(left, right, #[trigger] candidates@[i]),
        decreases 6 - index,
    {
        let candidate: LogicalType = candidates[index];
        if can_widen(left, candidate) && can_widen(right, candidate) {
            proof {
                assert(both_widen(left, right, candidates@[index as int]));
                if index > 0 {
                    assert(!both_widen(left, right, candidates@[0]));
                }
                if index > 1 {
                    assert(!both_widen(left, right, candidates@[1]));
                }
                if index > 2 {
                    assert(!both_widen(left, right, candidates@[2]));
                }
                if index > 3 {
                    assert(!both_widen(left, right, candidates@[3]));
                }
                if index > 4 {
                    assert(!both_widen(left, right, candidates@[4]));
                }
            }
            return Some(candidate);
        }
        index = index + 1;
    }
    proof {
        assert(!both_widen(left, right, candidates@[0]));
        assert(!both_widen(left, right, candidates@[1]));
        assert(!both_widen(left, right, candidates@[2]));
        assert(!both_widen(left, right, candidates@[3]));
        assert(!both_widen(left, right, candidates@[4]));
        assert(!both_widen(left, right, candidates@[5]));
    }
    None
}

/// Two types have the same common type in either order, it is numeric, and both widen to it.
pub proof fn common_types_are_lossless(left: LogicalType, right: LogicalType)
    ensures
        common_type(left, right) == common_type(right, left),
        common_type(left, right) matches Some(target) ==> is_numeric(target) && both_widen(
            left,
            right,
            target,
        ),
{
}

/// Whether a cast from one type to another is defined.
pub open spec fn casts(source: LogicalType, target: LogicalType) -> bool {
    ||| source == target
    ||| is_numeric(source) && is_numeric(target)
    ||| source == LogicalType::Json || target == LogicalType::Json
    ||| source == LogicalType::Utf8 || target == LogicalType::Utf8
}

fn cast_is_defined(source: LogicalType, target: LogicalType) -> (r: bool)
    ensures
        r == casts(source, target),
{
    source == target || has_numeric(source) && has_numeric(target) || source == LogicalType::Json
        || target == LogicalType::Json || source == LogicalType::Utf8 || target
        == LogicalType::Utf8
}

/// Whether an expression is the null literal.
pub open spec fn is_null(expression: ast::Expression) -> bool {
    match expression.kind {
        ast::ExpressionKind::Literal(literal) => literal.kind is Null,
        _ => false,
    }
}

fn is_null_literal(expression: &ast::Expression) -> (r: bool)
    ensures
        r == is_null(*expression),
{
    match &expression.kind {
        ast::ExpressionKind::Literal(literal) => matches!(literal.kind, LiteralKind::Null),
        _ => false,
    }
}

/// Whether the type of an expression comes from its context: it is built of integer and null
/// literals alone.
pub open spec fn is_contextual(expression: ast::Expression) -> bool
    decreases expression,
{
    match expression.kind {
        ast::ExpressionKind::Literal(literal) => literal.kind is Integer || literal.kind is Null,
        ast::ExpressionKind::Unary { operator, operand } => operator == ast::UnaryOperator::Negate
            && is_contextual(*operand),
        ast::ExpressionKind::Binary { operator, left, right } => is_arithmetic(operator)
            && is_contextual(*left) && is_contextual(*right),
        _ => false,
    }
}

fn arithmetic_operator(operator: ast::BinaryOperator) -> (r: bool)
    ensures
        r == is_arithmetic(operator),
{
    matches!(
        operator,
        ast::BinaryOperator::Add | ast::BinaryOperator::Subtract | ast::BinaryOperator::Multiply
        | ast::BinaryOperator::Divide
    )
}

fn needs_context(expression: &ast::Expression) -> (r: bool)
    ensures
        r == is_contextual(*expression),
    decreases expression,
{
    match &expression.kind {
        ast::ExpressionKind::Literal(literal) => matches!(
            literal.kind,
            LiteralKind::Integer(_) | LiteralKind::Null
        ),
        ast::ExpressionKind::Unary { operator, operand } => *operator
            == ast::UnaryOperator::Negate && needs_context(operand),
        ast::ExpressionKind::Binary { operator, left, right } => arithmetic_operator(*operator)
            && needs_context(left) && needs_context(right),
        _ => false,
    }
}

/// The field that a reference names.
pub open spec fn resolved(reference: FieldReference, fields: Seq<Field>) -> Result<
    Field,
    SemanticError,
> {
    match field_named(fields, reference.name()@, 0) {
        Some(field) => Ok(field),
        None => Err(
            SemanticError::FieldNotFound { name: reference.name(), span: reference.place() },
        ),
    }
}

/// Finds the field that a reference names.
pub fn resolve_field(reference: &FieldReference, relation: &Relation) -> (r: Result<
    Field,
    SemanticError,
>)
    ensures
        r == resolved(*reference, relation.fields@),
{
    match relation.field(reference.as_str()) {
        Some(field) => Ok(field.clone()),
        None => Err(
            SemanticError::FieldNotFound { name: reference.to_name(), span: reference.span() },
        ),
    }
}

/// Whether a reference names no field but a member of the remainder, which the relation has.
pub open spec fn is_remainder_field(reference: FieldReference, fields: Seq<Field>) -> bool {
    &&& reference is User
    &&& field_named(fields, reference.name()@, 0) is None
    &&& field_named(fields, REMAINDER_FIELD_NAME@, 0) is Some
}

/// The value of a member of the remainder.
pub open spec fn remainder_value(remainder: Field, key: String) -> Expression {
    Expression {
        kind: ExpressionKind::Remainder { function: RemainderFunction::Value, remainder, key },
        logical_type: LogicalType::Json,
        nullability: Nullability::Nullable,
    }
}

/// The expression that a reference is: the field that it names, or a member of the remainder.
pub open spec fn typed_field(reference: FieldReference, fields: Seq<Field>) -> Result<
    Expression,
    SemanticError,
> {
    if is_remainder_field(reference, fields) {
        Ok(
            remainder_value(
                field_named(fields, REMAINDER_FIELD_NAME@, 0)->0,
                reference.name(),
            ),
        )
    } else {
        match resolved(reference, fields) {
            Ok(field) => Ok(Expression::of_field(field)),
            Err(e) => Err(e),
        }
    }
}

fn remainder_of<'a>(reference: &FieldReference, relation: &'a Relation) -> (r: Option<&'a Field>)
    ensures
        match r {
            Some(field) => is_remainder_field(*reference, relation.fields@) && field_named(
                relation.fields@,
                REMAINDER_FIELD_NAME@,
                0,
            ) == Some(*field),
            None => !is_remainder_field(*reference, relation.fields@),
        },
{
    match reference {
        FieldReference::System(_) => None,
        FieldReference::User(_) => match relation.field(reference.as_str()) {
            Some(_) => None,
            None => relation.field(REMAINDER_FIELD_NAME),
        },
    }
}

/// Makes an expression of a reference.
pub fn convert_field(reference: &FieldReference, relation: &Relation) -> (r: Result<
    Expression,
    SemanticError,
>)
    ensures
        r == typed_field(*reference, relation.fields@),
{
    if let Some(remainder) = remainder_of(reference, relation) {
        return Ok(
            Expression {
                kind: ExpressionKind::Remainder {
                    function: RemainderFunction::Value,
                    remainder: remainder.clone(),
                    key: reference.to_name(),
                },
                logical_type: LogicalType::Json,
                nullability: Nullability::Nullable,
            },
        );
    }
    match resolve_field(reference, relation) {
        Ok(field) => Ok(Expression::field(field)),
        Err(e) => Err(e),
    }
}

/// The expression that an access to the remainder is.
pub open spec fn typed_remainder(access: ast::RemainderExpression, fields: Seq<Field>) -> Result<
    Expression,
    SemanticError,
> {
    match field_named(fields, REMAINDER_FIELD_NAME@, 0) {
        None => Err(SemanticError::RemainderNotFound { span: access.span }),
        Some(remainder) => match access.function {
            ast::RemainderFunction::Value => Ok(remainder_value(remainder, access.key.value)),
            ast::RemainderFunction::Exists => Ok(
                Expression {
                    kind: ExpressionKind::Remainder {
                        function: RemainderFunction::Exists,
                        remainder,
                        key: access.key.value,
                    },
                    logical_type: LogicalType::Bool,
                    nullability: Nullability::NonNull,
                },
            ),
        },
    }
}

fn convert_remainder(access: &ast::RemainderExpression, relation: &Relation) -> (r: Result<
    Expression,
    SemanticError,
>)
    ensures
        r == typed_remainder(*access, relation.fields@),
{
    let remainder: Field = match relation.field(REMAINDER_FIELD_NAME) {
        None => {
            return Err(SemanticError::RemainderNotFound { span: access.span });
        },
        Some(field) => field.clone(),
    };
    let key: String = access.key.value.clone();
    match access.function {
        ast::RemainderFunction::Value => Ok(
            Expression {
                kind: ExpressionKind::Remainder {
                    function: RemainderFunction::Value,
                    remainder,
                    key,
                },
                logical_type: LogicalType::Json,
                nullability: Nullability::Nullable,
            },
        ),
        ast::RemainderFunction::Exists => Ok(
            Expression {
                kind: ExpressionKind::Remainder {
                    function: RemainderFunction::Exists,
                    remainder,
                    key,
                },
                logical_type: LogicalType::Bool,
                nullability: Nullability::NonNull,
            },
        ),
    }
}

/// The type that the operand of a cast is expected to have.
pub open spec fn cast_context(cast: ast::CastExpression) -> Option<LogicalType> {
    let target = catalog_type(cast.target);
    if is_null(*cast.expression) || is_numeric(target) {
        Some(target)
    } else {
        None
    }
}

/// The expression that a cast of a typed operand is. A cast null is a null of the target.
pub open spec fn typed_cast(cast: ast::CastExpression, operand: Expression) -> Result<
    Expression,
    SemanticError,
> {
    let target = catalog_type(cast.target);
    if !casts(operand.logical_type, target) {
        Err(
            SemanticError::CastInvalid { source: operand.logical_type, target, span: cast.span },
        )
    } else if operand.kind matches ExpressionKind::Literal(literal) && literal is Null {
        Ok(Expression::of_literal(Literal::Null(target)))
    } else {
        let kind = match cast.kind {
            ast::CastKind::Strict => CastKind::Strict,
            ast::CastKind::NullOnFailure => CastKind::NullOnFailure,
        };
        Ok(
            Expression {
                kind: ExpressionKind::Cast { kind, expression: Box::new(operand), target },
                logical_type: target,
                nullability: if kind == CastKind::NullOnFailure || operand.logical_type
                    == LogicalType::Json {
                    Nullability::Nullable
                } else {
                    operand.nullability
                },
            },
        )
    }
}

fn convert_cast(cast: &ast::CastExpression, operand: Expression) -> (r: Result<
    Expression,
    SemanticError,
>)
    ensures
        r == typed_cast(*cast, operand),
{
    let target: LogicalType = logical_type(cast.target);
    if !cast_is_defined(operand.logical_type, target) {
        return Err(
            SemanticError::CastInvalid { source: operand.logical_type, target, span: cast.span },
        );
    }
    if let ExpressionKind::Literal(Literal::Null(_)) = &operand.kind {
        return Ok(Expression::literal(Literal::Null(target)));
    }
    let kind: CastKind = match cast.kind {
        ast::CastKind::Strict => CastKind::Strict,
        ast::CastKind::NullOnFailure => CastKind::NullOnFailure,
    };
    let nullability: Nullability = if kind == CastKind::NullOnFailure || operand.logical_type
        == LogicalType::Json {
        Nullability::Nullable
    } else {
        operand.nullability
    };
    Ok(
        Expression {
            kind: ExpressionKind::Cast { kind, expression: Box::new(operand), target },
            logical_type: target,
            nullability,
        },
    )
}

/// The integer that a minus sign stands before, if the operand is an integer literal.
pub open spec fn negated_integer(operator: ast::UnaryOperator, operand: ast::Expression) -> Option<
    u64,
> {
    if operator != ast::UnaryOperator::Negate {
        None
    } else {
        match operand.kind {
            ast::ExpressionKind::Literal(literal) => match literal.kind {
                LiteralKind::Integer(magnitude) => Some(magnitude),
                _ => None,
            },
            _ => None,
        }
    }
}

fn negative_literal(operator: ast::UnaryOperator, operand: &ast::Expression) -> (r: Option<u64>)
    ensures
        r == negated_integer(operator, *operand),
{
    if operator != ast::UnaryOperator::Negate {
        return None;
    }
    match &operand.kind {
        ast::ExpressionKind::Literal(literal) => match &literal.kind {
            LiteralKind::Integer(magnitude) => Some(*magnitude),
            _ => None,
        },
        _ => None,
    }
}

/// A type, if it is numeric.
pub open spec fn numeric_only(expected: Option<LogicalType>) -> Option<LogicalType> {
    match expected {
        Some(logical_type) if is_numeric(logical_type) => expected,
        _ => None,
    }
}

fn keep_numeric(expected: Option<LogicalType>) -> (r: Option<LogicalType>)
    ensures
        r == numeric_only(expected),
{
    match expected {
        Some(logical_type) => if has_numeric(logical_type) {
            Some(logical_type)
        } else {
            None
        },
        None => None,
    }
}

/// The type that the operand of a prefix operator is expected to have.
pub open spec fn unary_context(
    operator: ast::UnaryOperator,
    expected: Option<LogicalType>,
) -> Option<LogicalType> {
    match operator {
        ast::UnaryOperator::Not => Some(LogicalType::Bool),
        ast::UnaryOperator::Negate => numeric_only(expected),
    }
}

/// Whether a prefix operator takes an operand of a type.
pub open spec fn takes(operator: ast::UnaryOperator, logical_type: LogicalType) -> bool {
    match operator {
        ast::UnaryOperator::Not => logical_type == LogicalType::Bool,
        ast::UnaryOperator::Negate => logical_type == LogicalType::Int32 || logical_type
            == LogicalType::Int64 || logical_type == LogicalType::Float32 || logical_type
            == LogicalType::Float64,
    }
}

/// The expression that a prefix operator and a typed operand are. A constant is evaluated.
pub open spec fn typed_unary(operator: ast::UnaryOperator, operand: Expression, span: Span) -> Result<
    Expression,
    SemanticError,
> {
    let converted = match operator {
        ast::UnaryOperator::Not => UnaryOperator::Not,
        ast::UnaryOperator::Negate => UnaryOperator::Negate,
    };
    let kept = Expression {
        kind: ExpressionKind::Unary { operator: converted, operand: Box::new(operand) },
        logical_type: operand.logical_type,
        nullability: operand.nullability,
    };
    if !takes(operator, operand.logical_type) {
        Err(
            SemanticError::TypeMismatch {
                reason: match operator {
                    ast::UnaryOperator::Not => Reason::NotRequiresBool,
                    ast::UnaryOperator::Negate => Reason::MinusRequiresSigned,
                },
                span,
            },
        )
    } else {
        match operand.kind {
            ExpressionKind::Literal(literal) => match unary_folded(converted, literal) {
                Err(reason) => Err(SemanticError::ConstantEvaluationFailed { reason, span }),
                Ok(Some(folded)) => Ok(Expression::of_literal(folded)),
                Ok(None) => Ok(kept),
            },
            _ => Ok(kept),
        }
    }
}

fn convert_unary(operator: ast::UnaryOperator, operand: Expression, span: Span) -> (r: Result<
    Expression,
    SemanticError,
>)
    ensures
        r == typed_unary(operator, operand, span),
{
    let logical_type: LogicalType = operand.logical_type;
    let converted: UnaryOperator = match operator {
        ast::UnaryOperator::Not => {
            if logical_type != LogicalType::Bool {
                return Err(
                    SemanticError::TypeMismatch { reason: Reason::NotRequiresBool, span },
                );
            }
            UnaryOperator::Not
        },
        ast::UnaryOperator::Negate => {
            if !matches!(
                logical_type,
                LogicalType::Int32 | LogicalType::Int64 | LogicalType::Float32
                | LogicalType::Float64
            ) {
                return Err(
                    SemanticError::TypeMismatch { reason: Reason::MinusRequiresSigned, span },
                );
            }
            UnaryOperator::Negate
        },
    };
    if let ExpressionKind::Literal(literal) = &operand.kind {
        match fold_unary(converted, literal) {
            Err(reason) => {
                return Err(SemanticError::ConstantEvaluationFailed { reason, span });
            },
            Ok(Some(folded)) => {
                return Ok(Expression::literal(folded));
            },
            Ok(None) => {},
        }
    }
    let nullability: Nullability = operand.nullability;
    Ok(
        Expression {
            kind: ExpressionKind::Unary { operator: converted, operand: Box::new(operand) },
            logical_type,
            nullability,
        },
    )
}

/// The predicate that an equality with the null literal is. Of a constant it is evaluated.
pub open spec fn typed_null_predicate(operator: ast::BinaryOperator, value: Expression) -> Expression {
    let predicate = if operator == ast::BinaryOperator::Equal {
        NullPredicate::IsNull
    } else {
        NullPredicate::IsNotNull
    };
    match value.kind {
        ExpressionKind::Literal(literal) => Expression::of_literal(
            Literal::Boolean((literal is Null) == (predicate == NullPredicate::IsNull)),
        ),
        _ => Expression {
            kind: ExpressionKind::NullPredicate { expression: Box::new(value), predicate },
            logical_type: LogicalType::Bool,
            nullability: Nullability::NonNull,
        },
    }
}

fn convert_null_predicate(operator: ast::BinaryOperator, value: Expression) -> (r: Expression)
    ensures
        r == typed_null_predicate(operator, value),
{
    let predicate: NullPredicate = if operator == ast::BinaryOperator::Equal {
        NullPredicate::IsNull
    } else {
        NullPredicate::IsNotNull
    };
    if let ExpressionKind::Literal(literal) = &value.kind {
        let null: bool = matches!(literal, Literal::Null(_));
        return Expression::literal(
            Literal::Boolean(null == (predicate == NullPredicate::IsNull)),
        );
    }
    Expression {
        kind: ExpressionKind::NullPredicate { expression: Box::new(value), predicate },
        logical_type: LogicalType::Bool,
        nullability: Nullability::NonNull,
    }
}

/// A constant in a type that its own widens to, if it is one that has another form there.
pub open spec fn widened(literal: Literal, target: LogicalType) -> Option<Literal> {
    match (literal, target) {
        (Literal::Int32(value), LogicalType::Int64) => Some(Literal::Int64(value as i64)),
        (Literal::Int32(value), LogicalType::Float64) => Some(
            Literal::Float64(
                integer_float(
                    (if value < 0 {
                        -value
                    } else {
                        value as int
                    }) as u64,
                    value < 0,
                    false,
                ),
            ),
        ),
        (Literal::UInt32(value), LogicalType::UInt64) => Some(Literal::UInt64(value as u64)),
        (Literal::UInt32(value), LogicalType::Float64) => Some(
            Literal::Float64(integer_float(value as u64, false, false)),
        ),
        (Literal::Float32(value), LogicalType::Float64) => Some(Literal::Float64(value)),
        (Literal::Null(_), target) => Some(Literal::Null(target)),
        _ => None,
    }
}

fn widen_literal(literal: &Literal, target: LogicalType) -> (r: Option<Literal>)
    ensures
        r == widened(*literal, target),
{
    match literal {
        Literal::Int32(value) => match target {
            LogicalType::Int64 => Some(Literal::Int64(*value as i64)),
            LogicalType::Float64 => {
                let magnitude: u64 = if *value < 0 {
                    (-(*value as i64)) as u64
                } else {
                    *value as u64
                };
                Some(Literal::Float64(make_integer_float(magnitude, *value < 0, false)))
            },
            _ => None,
        },
        Literal::UInt32(value) => match target {
            LogicalType::UInt64 => Some(Literal::UInt64(*value as u64)),
            LogicalType::Float64 => Some(
                Literal::Float64(make_integer_float(*value as u64, false, false)),
            ),
            _ => None,
        },
        Literal::Float32(value) => match target {
            LogicalType::Float64 => Some(
                Literal::Float64(
                    FloatConstant {
                        negative: value.negative,
                        magnitude: match &value.magnitude {
                            FloatMagnitude::Integer(number) => FloatMagnitude::Integer(*number),
                            FloatMagnitude::Decimal(text) => FloatMagnitude::Decimal(text.clone()),
                        },
                        single: value.single,
                    },
                ),
            ),
            _ => None,
        },
        Literal::Null(_) => Some(Literal::Null(target)),
        _ => None,
    }
}

/// An expression in a type that its own widens to.
pub open spec fn coerced(expression: Expression, target: LogicalType) -> Expression {
    let constant = match expression.kind {
        ExpressionKind::Literal(literal) => widened(literal, target),
        _ => None,
    };
    if expression.logical_type == target {
        expression
    } else {
        match constant {
            Some(literal) => Expression::of_literal(literal),
            None => Expression {
                kind: ExpressionKind::Cast {
                    kind: CastKind::Lossless,
                    expression: Box::new(expression),
                    target,
                },
                logical_type: target,
                nullability: expression.nullability,
            },
        }
    }
}

fn coerce_losslessly(expression: Expression, target: LogicalType) -> (r: Expression)
    ensures
        r == coerced(expression, target),
{
    if expression.logical_type == target {
        return expression;
    }
    if let ExpressionKind::Literal(literal) = &expression.kind {
        if let Some(literal) = widen_literal(literal, target) {
            return Expression::literal(literal);
        }
    }
    let nullability: Nullability = expression.nullability;
    Expression {
        kind: ExpressionKind::Cast {
            kind: CastKind::Lossless,
            expression: Box::new(expression),
            target,
        },
        logical_type: target,
        nullability,
    }
}

/// The expression that an operator and two operands of the types that it takes are. Of two
/// constants it is evaluated.
pub open spec fn built(
    operator: ast::BinaryOperator,
    left: Expression,
    right: Expression,
    logical_type: LogicalType,
    span: Span,
    facts: FloatFacts,
) -> Result<Expression, SemanticError> {
    let kept = Expression {
        kind: ExpressionKind::Binary {
            operator: pipeline_operator(operator),
            left: Box::new(left),
            right: Box::new(right),
        },
        logical_type,
        nullability: if left.nullability == Nullability::Nullable || right.nullability
            == Nullability::Nullable {
            Nullability::Nullable
        } else {
            Nullability::NonNull
        },
    };
    match (left.kind, right.kind) {
        (ExpressionKind::Literal(left), ExpressionKind::Literal(right)) => match binary_folded(
            pipeline_operator(operator),
            left,
            right,
            logical_type,
            facts,
        ) {
            Err(FoldFault::Failed(reason)) => Err(
                SemanticError::ConstantEvaluationFailed { reason, span },
            ),
            Err(FoldFault::Unknown(question)) => Err(
                SemanticError::FloatUnknown { question, span },
            ),
            Ok(Some(folded)) => Ok(Expression::of_literal(folded)),
            Ok(None) => Ok(kept),
        },
        _ => Ok(kept),
    }
}

fn build_binary(
    operator: ast::BinaryOperator,
    left: Expression,
    right: Expression,
    logical_type: LogicalType,
    span: Span,
    facts: &FloatFacts,
) -> (r: Result<Expression, SemanticError>)
    ensures
        r == built(operator, left, right, logical_type, span, *facts),
{
    let converted: BinaryOperator = binary_operator(operator);
    if let (ExpressionKind::Literal(left), ExpressionKind::Literal(right)) = (
        &left.kind,
        &right.kind,
    ) {
        match fold_binary(converted, left, right, logical_type, facts) {
            Err(FoldFault::Failed(reason)) => {
                return Err(SemanticError::ConstantEvaluationFailed { reason, span });
            },
            Err(FoldFault::Unknown(question)) => {
                return Err(SemanticError::FloatUnknown { question, span });
            },
            Ok(Some(folded)) => {
                return Ok(Expression::literal(folded));
            },
            Ok(None) => {},
        }
    }
    let nullability: Nullability = if left.nullability == Nullability::Nullable
        || right.nullability == Nullability::Nullable {
        Nullability::Nullable
    } else {
        Nullability::NonNull
    };
    Ok(
        Expression {
            kind: ExpressionKind::Binary {
                operator: converted,
                left: Box::new(left),
                right: Box::new(right),
            },
            logical_type,
            nullability,
        },
    )
}

/// Whether two types that are not both numeric can be compared.
pub open spec fn comparable(
    operator: ast::BinaryOperator,
    left: LogicalType,
    right: LogicalType,
) -> bool {
    left == right && (left == LogicalType::Utf8 || left == LogicalType::Datetime || left
        == LogicalType::Eid || left == LogicalType::Bool && is_equality(operator))
}

/// The expression that an operator and two typed operands are.
pub open spec fn typed_binary(
    operator: ast::BinaryOperator,
    left: Expression,
    right: Expression,
    span: Span,
    facts: FloatFacts,
) -> Result<Expression, SemanticError> {
    let numeric = is_numeric(left.logical_type) && is_numeric(right.logical_type);
    let common = common_type(left.logical_type, right.logical_type);
    if is_logical(operator) {
        if left.logical_type == LogicalType::Bool && right.logical_type == LogicalType::Bool {
            built(operator, left, right, LogicalType::Bool, span, facts)
        } else {
            Err(SemanticError::TypeMismatch { reason: Reason::LogicalRequiresBool, span })
        }
    } else if is_arithmetic(operator) && !numeric {
        Err(SemanticError::TypeMismatch { reason: Reason::ArithmeticRequiresNumeric, span })
    } else if numeric {
        match common {
            None => Err(SemanticError::TypeMismatch { reason: Reason::NoCommonType, span }),
            Some(target) => built(
                operator,
                coerced(left, target),
                coerced(right, target),
                if is_arithmetic(operator) {
                    target
                } else {
                    LogicalType::Bool
                },
                span,
                facts,
            ),
        }
    } else if comparable(operator, left.logical_type, right.logical_type) {
        built(operator, left, right, LogicalType::Bool, span, facts)
    } else {
        Err(SemanticError::TypeMismatch { reason: Reason::ComparisonIncompatible, span })
    }
}

fn convert_binary(
    operator: ast::BinaryOperator,
    left: Expression,
    right: Expression,
    span: Span,
    facts: &FloatFacts,
) -> (r: Result<Expression, SemanticError>)
    ensures
        r == typed_binary(operator, left, right, span, *facts),
{
    let left_type: LogicalType = left.logical_type;
    let right_type: LogicalType = right.logical_type;
    let numeric: bool = has_numeric(left_type) && has_numeric(right_type);
    let arithmetic: bool = arithmetic_operator(operator);
    if matches!(operator, ast::BinaryOperator::And | ast::BinaryOperator::Or) {
        if left_type != LogicalType::Bool || right_type != LogicalType::Bool {
            return Err(SemanticError::TypeMismatch { reason: Reason::LogicalRequiresBool, span });
        }
        return build_binary(operator, left, right, LogicalType::Bool, span, facts);
    }
    if arithmetic && !numeric {
        return Err(
            SemanticError::TypeMismatch { reason: Reason::ArithmeticRequiresNumeric, span },
        );
    }
    if numeric {
        return match common_numeric_type(left_type, right_type) {
            None => Err(SemanticError::TypeMismatch { reason: Reason::NoCommonType, span }),
            Some(target) => {
                let result: LogicalType = if arithmetic {
                    target
                } else {
                    LogicalType::Bool
                };
                build_binary(
                    operator,
                    coerce_losslessly(left, target),
                    coerce_losslessly(right, target),
                    result,
                    span,
                    facts,
                )
            },
        };
    }
    let equality: bool = matches!(
        operator,
        ast::BinaryOperator::Equal | ast::BinaryOperator::NotEqual
    );
    if left_type == right_type && (left_type == LogicalType::Utf8 || left_type
        == LogicalType::Datetime || left_type == LogicalType::Eid || left_type
        == LogicalType::Bool && equality) {
        build_binary(operator, left, right, LogicalType::Bool, span, facts)
    } else {
        Err(SemanticError::TypeMismatch { reason: Reason::ComparisonIncompatible, span })
    }
}

/// In which order the operands of an operator get their types.
#[derive(Clone, Copy, Debug, PartialEq, Eq, Structural)]
pub enum PairOrder {
    /// Both from a context.
    Both(Option<LogicalType>),
    /// The left from a context, and the right from the left.
    LeftFirst(Option<LogicalType>),
    /// The right from a context, and the left from the right.
    RightFirst(Option<LogicalType>),
}

/// The order in which two operands get their types: one whose type comes from its context gets
/// it from the other.
pub open spec fn pair_order(
    operator: ast::BinaryOperator,
    left: ast::Expression,
    right: ast::Expression,
    expected: Option<LogicalType>,
) -> PairOrder {
    let context = if is_arithmetic(operator) {
        numeric_only(expected)
    } else {
        None
    };
    if is_logical(operator) {
        PairOrder::Both(Some(LogicalType::Bool))
    } else if is_contextual(left) && !is_contextual(right) {
        PairOrder::RightFirst(context)
    } else if !is_contextual(left) && is_contextual(right) {
        PairOrder::LeftFirst(context)
    } else if !is_contextual(left) || context is Some {
        PairOrder::Both(context)
    } else if is_null(left) {
        PairOrder::RightFirst(None)
    } else {
        PairOrder::LeftFirst(None)
    }
}

fn convert_contextual_pair(
    operator: ast::BinaryOperator,
    left: &ast::Expression,
    right: &ast::Expression,
    expected: Option<LogicalType>,
) -> (r: PairOrder)
    ensures
        r == pair_order(operator, *left, *right, expected),
{
    if matches!(operator, ast::BinaryOperator::And | ast::BinaryOperator::Or) {
        return PairOrder::Both(Some(LogicalType::Bool));
    }
    let context: Option<LogicalType> = if arithmetic_operator(operator) {
        keep_numeric(expected)
    } else {
        None
    };
    let left_contextual: bool = needs_context(left);
    let right_contextual: bool = needs_context(right);
    if left_contextual && !right_contextual {
        PairOrder::RightFirst(context)
    } else if !left_contextual && right_contextual {
        PairOrder::LeftFirst(context)
    } else if !left_contextual || context.is_some() {
        PairOrder::Both(context)
    } else if is_null_literal(left) {
        PairOrder::RightFirst(None)
    } else {
        PairOrder::LeftFirst(None)
    }
}

/// The value that an equality tests for null, if one of its sides is the null literal.
pub open spec fn tested_for_null(
    operator: ast::BinaryOperator,
    left: ast::Expression,
    right: ast::Expression,
) -> bool {
    is_equality(operator) && (is_null(left) || is_null(right))
}

/// The typed expression that an expression is, in a context that may expect a type.
pub open spec fn typed(
    expression: ast::Expression,
    fields: Seq<Field>,
    expected: Option<LogicalType>,
    facts: FloatFacts,
) -> Result<Expression, SemanticError>
    decreases expression,
{
    let span = expression.span;
    match expression.kind {
        ast::ExpressionKind::Literal(literal) => match contextual_literal(
            literal.kind,
            expected,
            span,
        ) {
            Ok(literal) => Ok(Expression::of_literal(literal)),
            Err(e) => Err(e),
        },
        ast::ExpressionKind::Field(reference) => typed_field(reference, fields),
        ast::ExpressionKind::Constructor(constructor) => match constructed(constructor) {
            Ok(literal) => Ok(Expression::of_literal(literal)),
            Err(e) => Err(e),
        },
        ast::ExpressionKind::Remainder(access) => typed_remainder(access, fields),
        ast::ExpressionKind::Cast(cast) => match typed(
            *cast.expression,
            fields,
            cast_context(cast),
            facts,
        ) {
            Err(e) => Err(e),
            Ok(operand) => typed_cast(cast, operand),
        },
        ast::ExpressionKind::Unary { operator, operand } => match negated_integer(
            operator,
            *operand,
        ) {
            Some(magnitude) => match contextual_integer(
                magnitude,
                NumericSign::Negative,
                expected,
                span,
                false,
            ) {
                Ok(literal) => Ok(Expression::of_literal(literal)),
                Err(e) => Err(e),
            },
            None => match typed(*operand, fields, unary_context(operator, expected), facts) {
                Err(e) => Err(e),
                Ok(operand) => typed_unary(operator, operand, span),
            },
        },
        ast::ExpressionKind::Binary { operator, left, right } => if tested_for_null(
            operator,
            *left,
            *right,
        ) {
            if is_null(*left) && is_null(*right) {
                Err(SemanticError::TypeMismatch { reason: Reason::TwoNulls, span })
            } else if is_null(*left) {
                match typed(*right, fields, None, facts) {
                    Err(e) => Err(e),
                    Ok(value) => Ok(typed_null_predicate(operator, value)),
                }
            } else {
                match typed(*left, fields, None, facts) {
                    Err(e) => Err(e),
                    Ok(value) => Ok(typed_null_predicate(operator, value)),
                }
            }
        } else {
            match pair_order(operator, *left, *right, expected) {
                PairOrder::Both(context) => match typed(*left, fields, context, facts) {
                    Err(e) => Err(e),
                    Ok(left) => match typed(*right, fields, context, facts) {
                        Err(e) => Err(e),
                        Ok(right) => typed_binary(operator, left, right, span, facts),
                    },
                },
                PairOrder::LeftFirst(context) => match typed(*left, fields, context, facts) {
                    Err(e) => Err(e),
                    Ok(left) => match typed(*right, fields, Some(left.logical_type), facts) {
                        Err(e) => Err(e),
                        Ok(right) => typed_binary(operator, left, right, span, facts),
                    },
                },
                PairOrder::RightFirst(context) => match typed(*right, fields, context, facts) {
                    Err(e) => Err(e),
                    Ok(right) => match typed(*left, fields, Some(right.logical_type), facts) {
                        Err(e) => Err(e),
                        Ok(left) => typed_binary(operator, left, right, span, facts),
                    },
                },
            }
        },
    }
}

/// Makes a typed expression of an expression, in a context that may expect a type.
pub fn convert_expression_with_expected(
    expression: &ast::Expression,
    relation: &Relation,
    expected: Option<LogicalType>,
    facts: &FloatFacts,
) -> (r: Result<Expression, SemanticError>)
    ensures
        r == typed(*expression, relation.fields@, expected, *facts),
    decreases expression,
{
    let span: Span = expression.span;
    match &expression.kind {
        ast::ExpressionKind::Literal(literal) => match convert_literal(
            &literal.kind,
            expected,
            span,
        ) {
            Ok(literal) => Ok(Expression::literal(literal)),
            Err(e) => Err(e),
        },
        ast::ExpressionKind::Field(reference) => convert_field(reference, relation),
        ast::ExpressionKind::Constructor(constructor) => match convert_constructor(constructor) {
            Ok(literal) => Ok(Expression::literal(literal)),
            Err(e) => Err(e),
        },
        ast::ExpressionKind::Remainder(access) => convert_remainder(access, relation),
        ast::ExpressionKind::Cast(cast) => {
            let target: LogicalType = logical_type(cast.target);
            let context: Option<LogicalType> = if is_null_literal(&cast.expression) || has_numeric(
                target,
            ) {
                Some(target)
            } else {
                None
            };
            match convert_expression_with_expected(&cast.expression, relation, context, facts) {
                Err(e) => Err(e),
                Ok(operand) => convert_cast(cast, operand),
            }
        },
        ast::ExpressionKind::Unary { operator, operand } => {
            if let Some(magnitude) = negative_literal(*operator, operand) {
                return match integer_literal(
                    magnitude,
                    NumericSign::Negative,
                    expected,
                    span,
                    false,
                ) {
                    Ok(literal) => Ok(Expression::literal(literal)),
                    Err(e) => Err(e),
                };
            }
            let context: Option<LogicalType> = match operator {
                ast::UnaryOperator::Not => Some(LogicalType::Bool),
                ast::UnaryOperator::Negate => keep_numeric(expected),
            };
            match convert_expression_with_expected(operand, relation, context, facts) {
                Err(e) => Err(e),
                Ok(operand) => convert_unary(*operator, operand, span),
            }
        },
        ast::ExpressionKind::Binary { operator, left, right } => {
            if matches!(
                operator,
                ast::BinaryOperator::Equal | ast::BinaryOperator::NotEqual
            ) {
                let left_null: bool = is_null_literal(left);
                let right_null: bool = is_null_literal(right);
                if left_null && right_null {
                    return Err(SemanticError::TypeMismatch { reason: Reason::TwoNulls, span });
                }
                if left_null {
                    return match convert_expression_with_expected(right, relation, None, facts) {
                        Err(e) => Err(e),
                        Ok(value) => Ok(convert_null_predicate(*operator, value)),
                    };
                }
                if right_null {
                    return match convert_expression_with_expected(left, relation, None, facts) {
                        Err(e) => Err(e),
                        Ok(value) => Ok(convert_null_predicate(*operator, value)),
                    };
                }
            }
            match convert_contextual_pair(*operator, left, right, expected) {
                PairOrder::Both(context) => match convert_expression_with_expected(
                    left,
                    relation,
                    context,
                    facts,
                ) {
                    Err(e) => Err(e),
                    Ok(left) => match convert_expression_with_expected(
                        right,
                        relation,
                        context,
                        facts,
                    ) {
                        Err(e) => Err(e),
                        Ok(right) => convert_binary(*operator, left, right, span, facts),
                    },
                },
                PairOrder::LeftFirst(context) => match convert_expression_with_expected(
                    left,
                    relation,
                    context,
                    facts,
                ) {
                    Err(e) => Err(e),
                    Ok(left) => match convert_expression_with_expected(
                        right,
                        relation,
                        Some(left.logical_type),
                        facts,
                    ) {
                        Err(e) => Err(e),
                        Ok(right) => convert_binary(*operator, left, right, span, facts),
                    },
                },
                PairOrder::RightFirst(context) => match convert_expression_with_expected(
                    right,
                    relation,
                    context,
                    facts,
                ) {
                    Err(e) => Err(e),
                    Ok(right) => match convert_expression_with_expected(
                        left,
                        relation,
                        Some(right.logical_type),
                        facts,
                    ) {
                        Err(e) => Err(e),
                        Ok(left) => convert_binary(*operator, left, right, span, facts),
                    },
                },
            }
        },
    }
}

/// Makes a typed expression of an expression.
pub fn convert_expression(
    expression: &ast::Expression,
    relation: &Relation,
    facts: &FloatFacts,
) -> (r: Result<Expression, SemanticError>)
    ensures
        r == typed(*expression, relation.fields@, None, *facts),
{
    convert_expression_with_expected(expression, relation, None, facts)
}

/// The warning for a reference that is read from the remainder.
pub open spec fn remainder_warning(reference: FieldReference) -> DiagnosticView {
    DiagnosticView {
        code: DiagnosticCode::FieldResolvedFromRemainder,
        severity: DiagnosticSeverity::Warning,
        message: "field "@ + text_debug(reference.name()@) + " is read from the remainder"@,
        span: Some(reference.place()),
        source_range: None,
    }
}

/// The warnings for the references of an expression, in the order in which they stand.
pub open spec fn warnings_of(expression: ast::Expression, fields: Seq<Field>) -> Seq<DiagnosticView>
    decreases expression,
{
    match expression.kind {
        ast::ExpressionKind::Field(reference) => reference_warnings(reference, fields),
        ast::ExpressionKind::Cast(cast) => warnings_of(*cast.expression, fields),
        ast::ExpressionKind::Unary { operand, .. } => warnings_of(*operand, fields),
        ast::ExpressionKind::Binary { left, right, .. } => warnings_of(*left, fields)
            + warnings_of(*right, fields),
        _ => Seq::empty(),
    }
}

/// The warnings for a reference.
pub open spec fn reference_warnings(reference: FieldReference, fields: Seq<Field>) -> Seq<
    DiagnosticView,
> {
    if is_remainder_field(reference, fields) {
        seq![remainder_warning(reference)]
    } else {
        Seq::empty()
    }
}

/// Adds the warnings for a reference.
pub fn warn_of_reference(
    reference: &FieldReference,
    relation: &Relation,
    warnings: &mut Vec<Diagnostic>,
)
    ensures
        diagnostic_views(final(warnings)@) == diagnostic_views(old(warnings)@)
            + reference_warnings(*reference, relation.fields@),
{
    let ghost before = diagnostic_views(warnings@);
    if remainder_of(reference, relation).is_some() {
        let shown: String = debug_text(reference.as_str());
        let message: String = "field ".to_owned().concat(shown.as_str()).concat(
            " is read from the remainder",
        );
        warnings.push(
            Diagnostic {
                code: DiagnosticCode::FieldResolvedFromRemainder,
                severity: DiagnosticSeverity::Warning,
                message,
                span: Some(reference.span()),
                source_range: None,
            },
        );
        assert(diagnostic_views(warnings@) =~= before + seq![remainder_warning(*reference)]);
    } else {
        assert(diagnostic_views(warnings@) =~= before + Seq::empty());
    }
}

/// Adds the warnings for the references of an expression.
pub fn warn_of_expression(
    expression: &ast::Expression,
    relation: &Relation,
    warnings: &mut Vec<Diagnostic>,
)
    ensures
        diagnostic_views(final(warnings)@) == diagnostic_views(old(warnings)@) + warnings_of(
            *expression,
            relation.fields@,
        ),
    decreases expression,
{
    let ghost before = diagnostic_views(warnings@);
    match &expression.kind {
        ast::ExpressionKind::Field(reference) => warn_of_reference(reference, relation, warnings),
        ast::ExpressionKind::Cast(cast) => warn_of_expression(
            &cast.expression,
            relation,
            warnings,
        ),
        ast::ExpressionKind::Unary { operand, .. } => warn_of_expression(
            operand,
            relation,
            warnings,
        ),
        ast::ExpressionKind::Binary { left, right, .. } => {
            warn_of_expression(left, relation, warnings);
            warn_of_expression(right, relation, warnings);
            assert(diagnostic_views(warnings@) =~= before + (warnings_of(**left, relation.fields@)
                + warnings_of(**right, relation.fields@)));
        },
        _ => {
            assert(diagnostic_views(warnings@) =~= before + Seq::empty());
        },
    }
}

/// Whether an expression refers only to fields of a relation, and each of its parts has the type
/// and the nullability that the parts below it give.
pub open spec fn well_typed(expression: Expression, fields: Seq<Field>) -> bool
    decreases expression,
{
    let logical_type = expression.logical_type;
    let nullable = expression.nullability == Nullability::Nullable;
    match expression.kind {
        ExpressionKind::Literal(literal) => logical_type == literal.ty() && expression.nullability
            == literal.null(),
        ExpressionKind::Field(field) => {
            &&& field_named(fields, field.name@, 0) == Some(field)
            &&& logical_type == field.logical_type
            &&& expression.nullability == field.nullability
        },
        ExpressionKind::Unary { operator, operand } => {
            &&& well_typed(*operand, fields)
            &&& logical_type == operand.logical_type
            &&& expression.nullability == operand.nullability
            &&& match operator {
                UnaryOperator::Not => logical_type == LogicalType::Bool,
                UnaryOperator::Negate => is_numeric(logical_type),
            }
        },
        ExpressionKind::Binary { operator, left, right } => {
            &&& well_typed(*left, fields)
            &&& well_typed(*right, fields)
            &&& left.logical_type == right.logical_type
            &&& nullable == (left.nullability == Nullability::Nullable || right.nullability
                == Nullability::Nullable)
            &&& match operator {
                BinaryOperator::Add | BinaryOperator::Subtract | BinaryOperator::Multiply
                | BinaryOperator::Divide => is_numeric(logical_type) && left.logical_type
                    == logical_type,
                BinaryOperator::And | BinaryOperator::Or => logical_type == LogicalType::Bool
                    && left.logical_type == LogicalType::Bool,
                _ => logical_type == LogicalType::Bool,
            }
        },
        ExpressionKind::Cast { kind, expression: operand, target } => {
            &&& well_typed(*operand, fields)
            &&& logical_type == target
            &&& casts(operand.logical_type, target)
            &&& kind == CastKind::Lossless ==> widens(operand.logical_type, target)
                && expression.nullability == operand.nullability
            &&& kind == CastKind::NullOnFailure ==> nullable
        },
        ExpressionKind::Remainder { function, remainder, .. } => {
            &&& field_named(fields, REMAINDER_FIELD_NAME@, 0) == Some(remainder)
            &&& match function {
                RemainderFunction::Value => logical_type == LogicalType::Json && nullable,
                RemainderFunction::Exists => logical_type == LogicalType::Bool && !nullable,
            }
        },
        ExpressionKind::NullPredicate { expression: operand, .. } => {
            &&& well_typed(*operand, fields)
            &&& logical_type == LogicalType::Bool
            &&& !nullable
        },
    }
}

proof fn lemma_field_keeps_name(fields: Seq<Field>, name: Seq<char>, from: int)
    ensures
        field_named(fields, name, from) matches Some(field) ==> field.name@ == name,
    decreases fields.len() - from,
{
    if 0 <= from < fields.len() && fields[from].name@ != name {
        lemma_field_keeps_name(fields, name, from + 1);
    }
}

proof fn lemma_coerced_is_well_typed(
    expression: Expression,
    target: LogicalType,
    fields: Seq<Field>,
)
    requires
        well_typed(expression, fields),
        is_numeric(expression.logical_type),
        widens(expression.logical_type, target),
    ensures
        well_typed(coerced(expression, target), fields),
        coerced(expression, target).logical_type == target,
{
}

proof fn lemma_built_is_well_typed(
    operator: ast::BinaryOperator,
    left: Expression,
    right: Expression,
    logical_type: LogicalType,
    span: Span,
    fields: Seq<Field>,
    facts: FloatFacts,
)
    requires
        well_typed(left, fields),
        well_typed(right, fields),
        left.logical_type == right.logical_type,
        if is_arithmetic(operator) {
            is_numeric(logical_type) && left.logical_type == logical_type
        } else {
            logical_type == LogicalType::Bool && (is_logical(operator) ==> left.logical_type
                == LogicalType::Bool)
        },
    ensures
        built(operator, left, right, logical_type, span, facts) matches Ok(made) ==> well_typed(
            made,
            fields,
        ),
{
}

proof fn lemma_binary_is_well_typed(
    operator: ast::BinaryOperator,
    left: Expression,
    right: Expression,
    span: Span,
    fields: Seq<Field>,
    facts: FloatFacts,
)
    requires
        well_typed(left, fields),
        well_typed(right, fields),
    ensures
        typed_binary(operator, left, right, span, facts) matches Ok(made) ==> well_typed(made, fields),
{
    let numeric = is_numeric(left.logical_type) && is_numeric(right.logical_type);
    if is_logical(operator) {
        if left.logical_type == LogicalType::Bool && right.logical_type == LogicalType::Bool {
            lemma_built_is_well_typed(operator, left, right, LogicalType::Bool, span, fields, facts);
        }
    } else if numeric {
        if let Some(target) = common_type(left.logical_type, right.logical_type) {
            common_types_are_lossless(left.logical_type, right.logical_type);
            lemma_coerced_is_well_typed(left, target, fields);
            lemma_coerced_is_well_typed(right, target, fields);
            lemma_built_is_well_typed(
                operator,
                coerced(left, target),
                coerced(right, target),
                if is_arithmetic(operator) {
                    target
                } else {
                    LogicalType::Bool
                },
                span,
                fields,
                facts,
            );
        }
    } else if !is_arithmetic(operator) && comparable(
        operator,
        left.logical_type,
        right.logical_type,
    ) {
        lemma_built_is_well_typed(operator, left, right, LogicalType::Bool, span, fields, facts);
    }
}

/// An expression that gets a type is resolved and typed in all its parts.
pub proof fn typed_expressions_are_well_typed(
    expression: ast::Expression,
    fields: Seq<Field>,
    expected: Option<LogicalType>,
    facts: FloatFacts,
)
    ensures
        typed(expression, fields, expected, facts) matches Ok(made) ==> well_typed(made, fields),
    decreases expression,
{
    let span = expression.span;
    match expression.kind {
        ast::ExpressionKind::Field(reference) => {
            lemma_field_keeps_name(fields, reference.name()@, 0);
        },
        ast::ExpressionKind::Cast(cast) => {
            typed_expressions_are_well_typed(*cast.expression, fields, cast_context(cast), facts);
        },
        ast::ExpressionKind::Unary { operator, operand } => {
            typed_expressions_are_well_typed(
                *operand,
                fields,
                unary_context(operator, expected),
                facts,
            );
        },
        ast::ExpressionKind::Binary { operator, left, right } => {
            if tested_for_null(operator, *left, *right) {
                typed_expressions_are_well_typed(*left, fields, None, facts);
                typed_expressions_are_well_typed(*right, fields, None, facts);
            } else {
                match pair_order(operator, *left, *right, expected) {
                    PairOrder::Both(context) => {
                        typed_expressions_are_well_typed(*left, fields, context, facts);
                        typed_expressions_are_well_typed(*right, fields, context, facts);
                        if let (Ok(left), Ok(right)) = (
                            typed(*left, fields, context, facts),
                            typed(*right, fields, context, facts),
                        ) {
                            lemma_binary_is_well_typed(operator, left, right, span, fields, facts);
                        }
                    },
                    PairOrder::LeftFirst(context) => {
                        typed_expressions_are_well_typed(*left, fields, context, facts);
                        if let Ok(left) = typed(*left, fields, context, facts) {
                            typed_expressions_are_well_typed(
                                *right,
                                fields,
                                Some(left.logical_type),
                                facts,
                            );
                            if let Ok(right) = typed(*right, fields, Some(left.logical_type), facts) {
                                lemma_binary_is_well_typed(operator, left, right, span, fields, facts);
                            }
                        }
                    },
                    PairOrder::RightFirst(context) => {
                        typed_expressions_are_well_typed(*right, fields, context, facts);
                        if let Ok(right) = typed(*right, fields, context, facts) {
                            typed_expressions_are_well_typed(
                                *left,
                                fields,
                                Some(right.logical_type),
                                facts,
                            );
                            if let Ok(left) = typed(*left, fields, Some(right.logical_type), facts) {
                                lemma_binary_is_well_typed(operator, left, right, span, fields, facts);
                            }
                        }
                    },
                }
            }
        },
        _ => {},
    }
}

/// Whether a step of the analysis under some facts asks only for what they do not answer, and if it
/// asks for nothing, gives the same under more facts.
pub open spec fn asks_only_for_unknowns<T>(
    r: Result<T, SemanticError>,
    more: Result<T, SemanticError>,
    facts: FloatFacts,
) -> bool {
    match r {
        Err(SemanticError::FloatUnknown { question, .. }) => !facts.answer(question),
        _ => more == r,
    }
}

proof fn lemma_binary_asks_only_for_unknowns(
    operator: ast::BinaryOperator,
    left: Expression,
    right: Expression,
    span: Span,
    facts: FloatFacts,
    more: FloatFacts,
)
    requires
        more.extend(facts),
    ensures
        asks_only_for_unknowns(
            typed_binary(operator, left, right, span, facts),
            typed_binary(operator, left, right, span, more),
            facts,
        ),
{
    let target = common_type(left.logical_type, right.logical_type);
    let numeric = is_numeric(left.logical_type) && is_numeric(right.logical_type);
    let (left, right, result) = if !is_logical(operator) && numeric && target is Some {
        (
            coerced(left, target->0),
            coerced(right, target->0),
            if is_arithmetic(operator) {
                target->0
            } else {
                LogicalType::Bool
            },
        )
    } else {
        (left, right, LogicalType::Bool)
    };
    if let (ExpressionKind::Literal(left), ExpressionKind::Literal(right)) = (
        left.kind,
        right.kind,
    ) {
        folding_asks_only_for_unknowns(
            pipeline_operator(operator),
            left,
            right,
            result,
            facts,
            more,
        );
    }
}

/// Typing an expression asks only for what is not known of floating-point constants, and what it
/// has decided stays when more is known.
pub proof fn typing_asks_only_for_unknowns(
    expression: ast::Expression,
    fields: Seq<Field>,
    expected: Option<LogicalType>,
    facts: FloatFacts,
    more: FloatFacts,
)
    requires
        more.extend(facts),
    ensures
        asks_only_for_unknowns(
            typed(expression, fields, expected, facts),
            typed(expression, fields, expected, more),
            facts,
        ),
    decreases expression,
{
    let span = expression.span;
    match expression.kind {
        ast::ExpressionKind::Cast(cast) => {
            typing_asks_only_for_unknowns(
                *cast.expression,
                fields,
                cast_context(cast),
                facts,
                more,
            );
        },
        ast::ExpressionKind::Unary { operator, operand } => {
            typing_asks_only_for_unknowns(
                *operand,
                fields,
                unary_context(operator, expected),
                facts,
                more,
            );
        },
        ast::ExpressionKind::Binary { operator, left, right } => {
            if tested_for_null(operator, *left, *right) {
                typing_asks_only_for_unknowns(*left, fields, None, facts, more);
                typing_asks_only_for_unknowns(*right, fields, None, facts, more);
            } else {
                match pair_order(operator, *left, *right, expected) {
                    PairOrder::Both(context) => {
                        typing_asks_only_for_unknowns(*left, fields, context, facts, more);
                        typing_asks_only_for_unknowns(*right, fields, context, facts, more);
                        if let (Ok(left), Ok(right)) = (
                            typed(*left, fields, context, facts),
                            typed(*right, fields, context, facts),
                        ) {
                            lemma_binary_asks_only_for_unknowns(
                                operator,
                                left,
                                right,
                                span,
                                facts,
                                more,
                            );
                        }
                    },
                    PairOrder::LeftFirst(context) => {
                        typing_asks_only_for_unknowns(*left, fields, context, facts, more);
                        if let Ok(left) = typed(*left, fields, context, facts) {
                            let given = Some(left.logical_type);
                            typing_asks_only_for_unknowns(*right, fields, given, facts, more);
                            if let Ok(right) = typed(*right, fields, given, facts) {
                                lemma_binary_asks_only_for_unknowns(
                                    operator,
                                    left,
                                    right,
                                    span,
                                    facts,
                                    more,
                                );
                            }
                        }
                    },
                    PairOrder::RightFirst(context) => {
                        typing_asks_only_for_unknowns(*right, fields, context, facts, more);
                        if let Ok(right) = typed(*right, fields, context, facts) {
                            let given = Some(right.logical_type);
                            typing_asks_only_for_unknowns(*left, fields, given, facts, more);
                            if let Ok(left) = typed(*left, fields, given, facts) {
                                lemma_binary_asks_only_for_unknowns(
                                    operator,
                                    left,
                                    right,
                                    span,
                                    facts,
                                    more,
                                );
                            }
                        }
                    },
                }
            }
        },
        _ => {},
    }
}

} // verus!
