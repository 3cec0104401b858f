//! Errors and diagnostics of query analysis.

use vstd::prelude::*;
use vstd::string::*;
use vstd::utf8::encode_utf8;

use crate::catalog::LogicalType;
use crate::language::floats::FloatQuestion;
use crate::language::ir::{AggregateFunction, Pipeline};
use crate::language::span::Span;
use crate::text::{
    chars_of, debug_text, decimal, decimal_text, signed_decimal, signed_text, text_before,
    text_debug, text_precedes,
};

verus! {

/// Which part of the analysis failed.
#[derive(Clone, Copy, Debug, PartialEq, Eq, Hash, Structural)]
pub enum AnalyzeErrorCode {
    Syntax,
    Semantic,
}

impl AnalyzeErrorCode {
    pub open spec fn text(self) -> Seq<char> {
        match self {
            AnalyzeErrorCode::Syntax => "QUERY_SYNTAX_ERROR"@,
            AnalyzeErrorCode::Semantic => "QUERY_SEMANTIC_ERROR"@,
        }
    }

    pub fn as_str(self) -> (r: &'static str)
        ensures
            r@ == self.text(),
    {
        match self {
            AnalyzeErrorCode::Syntax => "QUERY_SYNTAX_ERROR",
            AnalyzeErrorCode::Semantic => "QUERY_SEMANTIC_ERROR",
        }
    }
}

/// How grave a diagnostic is.
#[derive(Clone, Copy, Debug, PartialEq, Eq, Hash, Structural)]
pub enum DiagnosticSeverity {
    Error,
    Warning,
}

impl DiagnosticSeverity {
    pub open spec fn text(self) -> Seq<char> {
        match self {
            DiagnosticSeverity::Error => "ERROR"@,
            DiagnosticSeverity::Warning => "WARNING"@,
        }
    }

    pub fn as_str(self) -> (r: &'static str)
        ensures
            r@ == self.text(),
    {
        match self {
            DiagnosticSeverity::Error => "ERROR",
            DiagnosticSeverity::Warning => "WARNING",
        }
    }
}

/// What a diagnostic is about.
#[derive(Clone, Copy, Debug, PartialEq, Eq, Hash, Structural)]
pub enum DiagnosticCode {
    SyntaxError,
    SourceNotFound,
    FieldNotFound,
    TimeExpressionInvalid,
    TimeBoundUnresolved,
    TimeRangeInvalid,
    LiteralInvalid,
    FunctionArityInvalid,
    FunctionArgumentTypeInvalid,
    CastInvalid,
    ProjectionAliasRequired,
    AggregateAliasRequired,
    DuplicateOutputField,
    StageOrderInvalid,
    TakeInvalid,
    TypeMismatch,
    ConstantEvaluationFailed,
    FieldResolvedFromRemainder,
}

impl DiagnosticCode {
    pub open spec fn text(self) -> Seq<char> {
        match self {
            DiagnosticCode::SyntaxError => "QUERY_SYNTAX_ERROR"@,
            DiagnosticCode::SourceNotFound => "QUERY_SOURCE_NOT_FOUND"@,
            DiagnosticCode::FieldNotFound => "QUERY_FIELD_NOT_FOUND"@,
            DiagnosticCode::TimeExpressionInvalid => "QUERY_TIME_EXPRESSION_INVALID"@,
            DiagnosticCode::TimeBoundUnresolved => "QUERY_TIME_BOUND_UNRESOLVED"@,
            DiagnosticCode::TimeRangeInvalid => "QUERY_TIME_RANGE_INVALID"@,
            DiagnosticCode::LiteralInvalid => "QUERY_LITERAL_INVALID"@,
            DiagnosticCode::FunctionArityInvalid => "QUERY_FUNCTION_ARITY_INVALID"@,
            DiagnosticCode::FunctionArgumentTypeInvalid => "QUERY_FUNCTION_ARGUMENT_TYPE_INVALID"@,
            DiagnosticCode::CastInvalid => "QUERY_CAST_INVALID"@,
            DiagnosticCode::ProjectionAliasRequired => "QUERY_PROJECTION_ALIAS_REQUIRED"@,
            DiagnosticCode::AggregateAliasRequired => "QUERY_AGGREGATE_ALIAS_REQUIRED"@,
            DiagnosticCode::DuplicateOutputField => "QUERY_DUPLICATE_OUTPUT_FIELD"@,
            DiagnosticCode::StageOrderInvalid => "QUERY_STAGE_ORDER_INVALID"@,
            DiagnosticCode::TakeInvalid => "QUERY_TAKE_INVALID"@,
            DiagnosticCode::TypeMismatch => "QUERY_TYPE_MISMATCH"@,
            DiagnosticCode::ConstantEvaluationFailed => "QUERY_CONSTANT_EVALUATION_FAILED"@,
            DiagnosticCode::FieldResolvedFromRemainder => "QUERY_FIELD_RESOLVED_FROM_REMAINDER"@,
        }
    }

    pub fn as_str(self) -> (r: &'static str)
        ensures
            r@ == self.text(),
    {
        match self {
            DiagnosticCode::SyntaxError => "QUERY_SYNTAX_ERROR",
            DiagnosticCode::SourceNotFound => "QUERY_SOURCE_NOT_FOUND",
            DiagnosticCode::FieldNotFound => "QUERY_FIELD_NOT_FOUND",
            DiagnosticCode::TimeExpressionInvalid => "QUERY_TIME_EXPRESSION_INVALID",
            DiagnosticCode::TimeBoundUnresolved => "QUERY_TIME_BOUND_UNRESOLVED",
            DiagnosticCode::TimeRangeInvalid => "QUERY_TIME_RANGE_INVALID",
            DiagnosticCode::LiteralInvalid => "QUERY_LITERAL_INVALID",
            DiagnosticCode::FunctionArityInvalid => "QUERY_FUNCTION_ARITY_INVALID",
            DiagnosticCode::FunctionArgumentTypeInvalid => "QUERY_FUNCTION_ARGUMENT_TYPE_INVALID",
            DiagnosticCode::CastInvalid => "QUERY_CAST_INVALID",
            DiagnosticCode::ProjectionAliasRequired => "QUERY_PROJECTION_ALIAS_REQUIRED",
            DiagnosticCode::AggregateAliasRequired => "QUERY_AGGREGATE_ALIAS_REQUIRED",
            DiagnosticCode::DuplicateOutputField => "QUERY_DUPLICATE_OUTPUT_FIELD",
            DiagnosticCode::StageOrderInvalid => "QUERY_STAGE_ORDER_INVALID",
            DiagnosticCode::TakeInvalid => "QUERY_TAKE_INVALID",
            DiagnosticCode::TypeMismatch => "QUERY_TYPE_MISMATCH",
            DiagnosticCode::ConstantEvaluationFailed => "QUERY_CONSTANT_EVALUATION_FAILED",
            DiagnosticCode::FieldResolvedFromRemainder => "QUERY_FIELD_RESOLVED_FROM_REMAINDER",
        }
    }
}

/// Why a literal, a type or a constant is refused.
#[derive(Clone, Copy, Debug, PartialEq, Eq, Hash, Structural)]
pub enum Reason {
    NullWithoutType,
    NotRequiresBool,
    MinusRequiresSigned,
    LogicalRequiresBool,
    TwoNulls,
    ArithmeticRequiresNumeric,
    NoCommonType,
    ComparisonIncompatible,
    NegativeUnsigned,
    IntegerRequiresNumeric,
    OutsideInt32,
    OutsideInt64,
    OutsideUInt32,
    UnsignedMinus,
    InexactFloat,
    FloatNotFinite,
    Float32NotFinite,
    Float64NotFinite,
    FloatingTargetRequired,
    DatetimeNotRfc3339,
    DatetimeTooPrecise,
    EidMalformed,
    NegationOverflowed,
    IntegerOverflowed,
    FloatDividedByZero,
    FloatResultNotFinite,
    TimeOutOfRange,
}

impl Reason {
    pub open spec fn text(self) -> Seq<char> {
        match self {
            Reason::NullWithoutType => "null literal has no unique contextual type"@,
            Reason::NotRequiresBool => "not requires a bool operand"@,
            Reason::MinusRequiresSigned => "unary minus requires a signed numeric operand"@,
            Reason::LogicalRequiresBool => "logical operators require bool operands"@,
            Reason::TwoNulls => "two null literals have no unique contextual type"@,
            Reason::ArithmeticRequiresNumeric => "arithmetic requires numeric operands"@,
            Reason::NoCommonType => "numeric operands have no lossless common type"@,
            Reason::ComparisonIncompatible => "comparison operands are incompatible"@,
            Reason::NegativeUnsigned => "negative expression cannot acquire an unsigned type"@,
            Reason::IntegerRequiresNumeric => "integer literal requires a numeric contextual type"@,
            Reason::OutsideInt32 => "integer literal is outside int32"@,
            Reason::OutsideInt64 => "integer literal is outside int64"@,
            Reason::OutsideUInt32 => "integer literal is outside uint32"@,
            Reason::UnsignedMinus => "unsigned constructor does not accept a leading minus"@,
            Reason::InexactFloat => "integer literal is not exactly representable in the contextual floating type"@,
            Reason::FloatNotFinite => "floating-point literal must be finite"@,
            Reason::Float32NotFinite => "float32 constructor is non-finite"@,
            Reason::Float64NotFinite => "float64 constructor is non-finite"@,
            Reason::FloatingTargetRequired => "floating constructor requires a floating target"@,
            Reason::DatetimeNotRfc3339 => "datetime must be RFC 3339 with an explicit offset"@,
            Reason::DatetimeTooPrecise => "datetime contains sub-millisecond precision"@,
            Reason::EidMalformed => "eid must contain exactly 32 lowercase hexadecimal characters"@,
            Reason::NegationOverflowed => "integer negation overflowed"@,
            Reason::IntegerOverflowed => "integer arithmetic overflowed or divided by zero"@,
            Reason::FloatDividedByZero => "floating-point arithmetic divided by zero"@,
            Reason::FloatResultNotFinite => "floating-point arithmetic produced a non-finite result"@,
            Reason::TimeOutOfRange => "relative time is out of range"@,
        }
    }

    pub fn as_str(self) -> (r: &'static str)
        ensures
            r@ == self.text(),
    {
        match self {
            Reason::NullWithoutType => "null literal has no unique contextual type",
            Reason::NotRequiresBool => "not requires a bool operand",
            Reason::MinusRequiresSigned => "unary minus requires a signed numeric operand",
            Reason::LogicalRequiresBool => "logical operators require bool operands",
            Reason::TwoNulls => "two null literals have no unique contextual type",
            Reason::ArithmeticRequiresNumeric => "arithmetic requires numeric operands",
            Reason::NoCommonType => "numeric operands have no lossless common type",
            Reason::ComparisonIncompatible => "comparison operands are incompatible",
            Reason::NegativeUnsigned => "negative expression cannot acquire an unsigned type",
            Reason::IntegerRequiresNumeric => "integer literal requires a numeric contextual type",
            Reason::OutsideInt32 => "integer literal is outside int32",
            Reason::OutsideInt64 => "integer literal is outside int64",
            Reason::OutsideUInt32 => "integer literal is outside uint32",
            Reason::UnsignedMinus => "unsigned constructor does not accept a leading minus",
            Reason::InexactFloat => "integer literal is not exactly representable in the contextual floating type",
            Reason::FloatNotFinite => "floating-point literal must be finite",
            Reason::Float32NotFinite => "float32 constructor is non-finite",
            Reason::Float64NotFinite => "float64 constructor is non-finite",
            Reason::FloatingTargetRequired => "floating constructor requires a floating target",
            Reason::DatetimeNotRfc3339 => "datetime must be RFC 3339 with an explicit offset",
            Reason::DatetimeTooPrecise => "datetime contains sub-millisecond precision",
            Reason::EidMalformed => "eid must contain exactly 32 lowercase hexadecimal characters",
            Reason::NegationOverflowed => "integer negation overflowed",
            Reason::IntegerOverflowed => "integer arithmetic overflowed or divided by zero",
            Reason::FloatDividedByZero => "floating-point arithmetic divided by zero",
            Reason::FloatResultNotFinite => "floating-point arithmetic produced a non-finite result",
            Reason::TimeOutOfRange => "relative time is out of range",
        }
    }
}

/// How a type is shown.
pub open spec fn shown_type(logical_type: LogicalType) -> Seq<char> {
    match logical_type {
        LogicalType::Bool => "bool"@,
        LogicalType::Int32 => "int32"@,
        LogicalType::Int64 => "int64"@,
        LogicalType::UInt32 => "uint32"@,
        LogicalType::UInt64 => "uint64"@,
        LogicalType::Float32 => "float32"@,
        LogicalType::Float64 => "float64"@,
        LogicalType::Utf8 => "utf8"@,
        LogicalType::Datetime => "datetime"@,
        LogicalType::Eid => "eid"@,
        LogicalType::Json => "json"@,
    }
}

fn show_type(logical_type: LogicalType) -> (r: &'static str)
    ensures
        r@ == shown_type(logical_type),
{
    match logical_type {
        LogicalType::Bool => "bool",
        LogicalType::Int32 => "int32",
        LogicalType::Int64 => "int64",
        LogicalType::UInt32 => "uint32",
        LogicalType::UInt64 => "uint64",
        LogicalType::Float32 => "float32",
        LogicalType::Float64 => "float64",
        LogicalType::Utf8 => "utf8",
        LogicalType::Datetime => "datetime",
        LogicalType::Eid => "eid",
        LogicalType::Json => "json",
    }
}

/// Why a query that was parsed has no typed pipeline.
#[derive(Debug, PartialEq, Eq)]
pub enum SemanticError {
    SourceNotFound { name: String, span: Span },
    FieldNotFound { name: String, span: Span },
    RemainderNotFound { span: Span },
    TimeExpressionInvalid { reason: Reason, span: Span },
    TimeBoundUnresolved { span: Span },
    TimeRangeInvalid { span: Span },
    LiteralInvalid { reason: Reason, span: Span },
    FunctionArityInvalid { function: AggregateFunction, span: Span },
    FunctionArgumentTypeInvalid {
        function: AggregateFunction,
        logical_type: LogicalType,
        span: Span,
    },
    CastInvalid { source: LogicalType, target: LogicalType, span: Span },
    ProjectionAliasRequired { span: Span },
    AggregateAliasRequired { span: Span },
    DuplicateOutputField { name: String, span: Span },
    StageOrderInvalid { span: Span },
    InvalidLimitValue { value: i64, span: Span },
    LimitOutOfRange { span: Span },
    TypeMismatch { reason: Reason, span: Span },
    ConstantEvaluationFailed { reason: Reason, span: Span },
    /// Something must be known of floating-point constants before the analysis can go on.
    FloatUnknown { question: FloatQuestion, span: Span },
}

impl SemanticError {
    /// The code of an error.
    pub open spec fn kind(self) -> DiagnosticCode {
        match self {
            SemanticError::SourceNotFound { .. } => DiagnosticCode::SourceNotFound,
            SemanticError::FieldNotFound { .. } => DiagnosticCode::FieldNotFound,
            SemanticError::RemainderNotFound { .. } => DiagnosticCode::FieldNotFound,
            SemanticError::TimeExpressionInvalid { .. } => DiagnosticCode::TimeExpressionInvalid,
            SemanticError::TimeBoundUnresolved { .. } => DiagnosticCode::TimeBoundUnresolved,
            SemanticError::TimeRangeInvalid { .. } => DiagnosticCode::TimeRangeInvalid,
            SemanticError::LiteralInvalid { .. } => DiagnosticCode::LiteralInvalid,
            SemanticError::FunctionArityInvalid { .. } => DiagnosticCode::FunctionArityInvalid,
            SemanticError::FunctionArgumentTypeInvalid { .. } => DiagnosticCode::FunctionArgumentTypeInvalid,
            SemanticError::CastInvalid { .. } => DiagnosticCode::CastInvalid,
            SemanticError::ProjectionAliasRequired { .. } => DiagnosticCode::ProjectionAliasRequired,
            SemanticError::AggregateAliasRequired { .. } => DiagnosticCode::AggregateAliasRequired,
            SemanticError::DuplicateOutputField { .. } => DiagnosticCode::DuplicateOutputField,
            SemanticError::StageOrderInvalid { .. } => DiagnosticCode::StageOrderInvalid,
            SemanticError::InvalidLimitValue { .. } => DiagnosticCode::TakeInvalid,
            SemanticError::LimitOutOfRange { .. } => DiagnosticCode::TakeInvalid,
            SemanticError::TypeMismatch { .. } => DiagnosticCode::TypeMismatch,
            SemanticError::ConstantEvaluationFailed { .. } => DiagnosticCode::ConstantEvaluationFailed,
            SemanticError::FloatUnknown { .. } => DiagnosticCode::ConstantEvaluationFailed,
        }
    }

    pub fn code(&self) -> (r: DiagnosticCode)
        ensures
            r == self.kind(),
    {
        match self {
            SemanticError::SourceNotFound { .. } => DiagnosticCode::SourceNotFound,
            SemanticError::FieldNotFound { .. } => DiagnosticCode::FieldNotFound,
            SemanticError::RemainderNotFound { .. } => DiagnosticCode::FieldNotFound,
            SemanticError::TimeExpressionInvalid { .. } => DiagnosticCode::TimeExpressionInvalid,
            SemanticError::TimeBoundUnresolved { .. } => DiagnosticCode::TimeBoundUnresolved,
            SemanticError::TimeRangeInvalid { .. } => DiagnosticCode::TimeRangeInvalid,
            SemanticError::LiteralInvalid { .. } => DiagnosticCode::LiteralInvalid,
            SemanticError::FunctionArityInvalid { .. } => DiagnosticCode::FunctionArityInvalid,
            SemanticError::FunctionArgumentTypeInvalid { .. } => DiagnosticCode::FunctionArgumentTypeInvalid,
            SemanticError::CastInvalid { .. } => DiagnosticCode::CastInvalid,
            SemanticError::ProjectionAliasRequired { .. } => DiagnosticCode::ProjectionAliasRequired,
            SemanticError::AggregateAliasRequired { .. } => DiagnosticCode::AggregateAliasRequired,
            SemanticError::DuplicateOutputField { .. } => DiagnosticCode::DuplicateOutputField,
            SemanticError::StageOrderInvalid { .. } => DiagnosticCode::StageOrderInvalid,
            SemanticError::InvalidLimitValue { .. } => DiagnosticCode::TakeInvalid,
            SemanticError::LimitOutOfRange { .. } => DiagnosticCode::TakeInvalid,
            SemanticError::TypeMismatch { .. } => DiagnosticCode::TypeMismatch,
            SemanticError::ConstantEvaluationFailed { .. } => DiagnosticCode::ConstantEvaluationFailed,
            SemanticError::FloatUnknown { .. } => DiagnosticCode::ConstantEvaluationFailed,
        }
    }

    /// Where an error stands.
    pub open spec fn place(self) -> Span {
        match self {
            SemanticError::SourceNotFound { span, .. } => span,
            SemanticError::FieldNotFound { span, .. } => span,
            SemanticError::RemainderNotFound { span, .. } => span,
            SemanticError::TimeExpressionInvalid { span, .. } => span,
            SemanticError::TimeBoundUnresolved { span, .. } => span,
            SemanticError::TimeRangeInvalid { span, .. } => span,
            SemanticError::LiteralInvalid { span, .. } => span,
            SemanticError::FunctionArityInvalid { span, .. } => span,
            SemanticError::FunctionArgumentTypeInvalid { span, .. } => span,
            SemanticError::CastInvalid { span, .. } => span,
            SemanticError::ProjectionAliasRequired { span, .. } => span,
            SemanticError::AggregateAliasRequired { span, .. } => span,
            SemanticError::DuplicateOutputField { span, .. } => span,
            SemanticError::StageOrderInvalid { span, .. } => span,
            SemanticError::InvalidLimitValue { span, .. } => span,
            SemanticError::LimitOutOfRange { span, .. } => span,
            SemanticError::TypeMismatch { span, .. } => span,
            SemanticError::ConstantEvaluationFailed { span, .. } => span,
            SemanticError::FloatUnknown { span, .. } => span,
        }
    }

    pub fn span(&self) -> (r: Span)
        ensures
            r == self.place(),
    {
        match self {
            SemanticError::SourceNotFound { span, .. } => *span,
            SemanticError::FieldNotFound { span, .. } => *span,
            SemanticError::RemainderNotFound { span, .. } => *span,
            SemanticError::TimeExpressionInvalid { span, .. } => *span,
            SemanticError::TimeBoundUnresolved { span, .. } => *span,
            SemanticError::TimeRangeInvalid { span, .. } => *span,
            SemanticError::LiteralInvalid { span, .. } => *span,
            SemanticError::FunctionArityInvalid { span, .. } => *span,
            SemanticError::FunctionArgumentTypeInvalid { span, .. } => *span,
            SemanticError::CastInvalid { span, .. } => *span,
            SemanticError::ProjectionAliasRequired { span, .. } => *span,
            SemanticError::AggregateAliasRequired { span, .. } => *span,
            SemanticError::DuplicateOutputField { span, .. } => *span,
            SemanticError::StageOrderInvalid { span, .. } => *span,
            SemanticError::InvalidLimitValue { span, .. } => *span,
            SemanticError::LimitOutOfRange { span, .. } => *span,
            SemanticError::TypeMismatch { span, .. } => *span,
            SemanticError::ConstantEvaluationFailed { span, .. } => *span,
            SemanticError::FloatUnknown { span, .. } => *span,
        }
    }

    /// What an error says.
    pub open spec fn text(self) -> Seq<char> {
        match self {
            SemanticError::SourceNotFound { name, .. } => "source "@ + text_debug(name@)
                + " was not found"@,
            SemanticError::FieldNotFound { name, .. } => "field "@ + text_debug(name@)
                + " was not found in the current relation"@,
            SemanticError::RemainderNotFound { .. } =>
                "@rest is not present in the current relation"@,
            SemanticError::TimeExpressionInvalid { reason, .. } => reason.text(),
            SemanticError::TimeBoundUnresolved { .. } =>
                "neither the source nor the request bounds the time range"@,
            SemanticError::TimeRangeInvalid { .. } => "the time range is empty"@,
            SemanticError::LiteralInvalid { reason, .. } => reason.text(),
            SemanticError::FunctionArityInvalid { function, .. } => function.written()
                + " requires an argument"@,
            SemanticError::FunctionArgumentTypeInvalid { function, logical_type, .. } =>
                function.written() + " is not defined for "@ + shown_type(logical_type),
            SemanticError::CastInvalid { source, target, .. } => "cast from "@ + shown_type(source)
                + " to "@ + shown_type(target) + " is not defined"@,
            SemanticError::ProjectionAliasRequired { .. } => "a projection requires a name"@,
            SemanticError::AggregateAliasRequired { .. } => "an aggregate requires a name"@,
            SemanticError::DuplicateOutputField { name, .. } => "output field "@ + text_debug(
                name@,
            ) + " occurs more than once"@,
            SemanticError::StageOrderInvalid { .. } =>
                "only sort and take may follow summarize"@,
            SemanticError::InvalidLimitValue { value, .. } => "take requires a count, not "@
                + signed_text(value as int),
            SemanticError::LimitOutOfRange { .. } =>
                "take literal is outside the signed 64-bit range"@,
            SemanticError::TypeMismatch { reason, .. } => reason.text(),
            SemanticError::ConstantEvaluationFailed { reason, .. } => reason.text(),
            SemanticError::FloatUnknown { .. } => "a floating-point constant is not evaluated"@,
        }
    }

    pub fn message(&self) -> (r: String)
        ensures
            r@ == self.text(),
    {
        match self {
            SemanticError::SourceNotFound { name, .. } => {
                let shown: String = debug_text(name.as_str());
                "source ".to_owned().concat(shown.as_str()).concat(" was not found")
            },
            SemanticError::FieldNotFound { name, .. } => {
                let shown: String = debug_text(name.as_str());
                "field ".to_owned().concat(shown.as_str()).concat(
                    " was not found in the current relation",
                )
            },
            SemanticError::RemainderNotFound { .. } =>
                "@rest is not present in the current relation".to_owned(),
            SemanticError::TimeExpressionInvalid { reason, .. } => reason.as_str().to_owned(),
            SemanticError::TimeBoundUnresolved { .. } =>
                "neither the source nor the request bounds the time range".to_owned(),
            SemanticError::TimeRangeInvalid { .. } => "the time range is empty".to_owned(),
            SemanticError::LiteralInvalid { reason, .. } => reason.as_str().to_owned(),
            SemanticError::FunctionArityInvalid { function, .. } =>
                function.as_str().to_owned().concat(" requires an argument"),
            SemanticError::FunctionArgumentTypeInvalid { function, logical_type, .. } =>
                function.as_str().to_owned().concat(" is not defined for ").concat(
                    show_type(*logical_type),
                ),
            SemanticError::CastInvalid { source, target, .. } =>
                "cast from ".to_owned().concat(show_type(*source)).concat(" to ").concat(
                    show_type(*target),
                ).concat(" is not defined"),
            SemanticError::ProjectionAliasRequired { .. } =>
                "a projection requires a name".to_owned(),
            SemanticError::AggregateAliasRequired { .. } =>
                "an aggregate requires a name".to_owned(),
            SemanticError::DuplicateOutputField { name, .. } => {
                let shown: String = debug_text(name.as_str());
                "output field ".to_owned().concat(shown.as_str()).concat(
                    " occurs more than once",
                )
            },
            SemanticError::StageOrderInvalid { .. } =>
                "only sort and take may follow summarize".to_owned(),
            SemanticError::InvalidLimitValue { value, .. } => {
                let shown: String = signed_decimal(*value);
                "take requires a count, not ".to_owned().concat(shown.as_str())
            },
            SemanticError::LimitOutOfRange { .. } =>
                "take literal is outside the signed 64-bit range".to_owned(),
            SemanticError::TypeMismatch { reason, .. } => reason.as_str().to_owned(),
            SemanticError::ConstantEvaluationFailed { reason, .. } => reason.as_str().to_owned(),
            SemanticError::FloatUnknown { .. } => "a floating-point constant is not evaluated".to_owned(),
        }
    }
}

/// A place in a query, counted in lines and characters, both from one.
#[derive(Clone, Copy, Debug, PartialEq, Eq, Hash, Structural)]
pub struct SourcePosition {
    pub line: usize,
    pub column: usize,
}

impl SourcePosition {
    pub fn line(self) -> (r: usize)
        ensures
            r == self.line,
    {
        self.line
    }

    pub fn column(self) -> (r: usize)
        ensures
            r == self.column,
    {
        self.column
    }
}

/// A range of a query.
#[derive(Clone, Copy, Debug, PartialEq, Eq, Hash, Structural)]
pub struct SourceRange {
    pub start: SourcePosition,
    pub end: SourcePosition,
}

impl SourceRange {
    pub fn start(self) -> (r: SourcePosition)
        ensures
            r == self.start,
    {
        self.start
    }

    pub fn end(self) -> (r: SourcePosition)
        ensures
            r == self.end,
    {
        self.end
    }
}

/// How many bytes encode a character.
pub open spec fn char_width(c: char) -> int {
    if (c as u32) < 0x80 {
        1
    } else if (c as u32) < 0x800 {
        2
    } else if (c as u32) < 0x1_0000 {
        3
    } else {
        4
    }
}

/// The position that is `offset` bytes behind `position`, before the character at `index`. There
/// is none within a character, behind the end, or where a count does not fit.
pub open spec fn position_from(
    chars: Seq<char>,
    index: int,
    offset: int,
    position: SourcePosition,
) -> Option<SourcePosition>
    decreases chars.len() - index,
{
    if offset == 0 {
        Some(position)
    } else if offset < 0 || !(0 <= index < chars.len()) {
        None
    } else if chars[index] == '\n' {
        if position.line == usize::MAX {
            None
        } else {
            position_from(
                chars,
                index + 1,
                offset - char_width(chars[index]),
                SourcePosition { line: (position.line + 1) as usize, column: 1 },
            )
        }
    } else if position.column == usize::MAX {
        None
    } else {
        position_from(
            chars,
            index + 1,
            offset - char_width(chars[index]),
            SourcePosition { line: position.line, column: (position.column + 1) as usize },
        )
    }
}

/// The position at a byte offset of a query.
pub open spec fn position_at(chars: Seq<char>, offset: int) -> Option<SourcePosition> {
    position_from(chars, 0, offset, SourcePosition { line: 1, column: 1 })
}

fn width_of(c: char) -> (r: usize)
    ensures
        r == char_width(c),
        1 <= r <= 4,
{
    let scalar: u32 = c as u32;
    if scalar < 0x80 {
        1
    } else if scalar < 0x800 {
        2
    } else if scalar < 0x1_0000 {
        3
    } else {
        4
    }
}

/// The position at a byte offset of a query, if a character begins there or the query ends there.
pub fn source_position(source: &str, byte_offset: usize) -> (r: Option<SourcePosition>)
    ensures
        r == position_at(source@, byte_offset as int),
{
    let chars: Vec<char> = chars_of(source);
    let mut index: usize = 0;
    let mut offset: usize = byte_offset;
    let mut position: SourcePosition = SourcePosition { line: 1, column: 1 };
    while offset > 0
        invariant
            chars@ == source@,
            index <= chars@.len(),
            position_at(source@, byte_offset as int) == position_from(
                source@,
                index as int,
                offset as int,
                position,
            ),
        decreases chars@.len() - index,
    {
        if index >= chars.len() {
            return None;
        }
        let c: char = chars[index];
        let width: usize = width_of(c);
        if c == '\n' {
            if position.line == usize::MAX {
                return None;
            }
            position = SourcePosition { line: position.line + 1, column: 1 };
        } else {
            if position.column == usize::MAX {
                return None;
            }
            position = SourcePosition { line: position.line, column: position.column + 1 };
        }
        if width > offset {
            assert(position_from(
                source@,
                index + 1,
                offset as int - width as int,
                position,
            ) is None);
            return None;
        }
        offset = offset - width;
        index = index + 1;
    }
    Some(position)
}

/// A diagnostic.
#[derive(Debug, PartialEq, Eq)]
pub struct Diagnostic {
    pub code: DiagnosticCode,
    pub severity: DiagnosticSeverity,
    pub message: String,
    pub span: Option<Span>,
    pub source_range: Option<SourceRange>,
}

/// What a diagnostic says.
pub struct DiagnosticView {
    pub code: DiagnosticCode,
    pub severity: DiagnosticSeverity,
    pub message: Seq<char>,
    pub span: Option<Span>,
    pub source_range: Option<SourceRange>,
}

impl View for Diagnostic {
    type V = DiagnosticView;

    open spec fn view(&self) -> DiagnosticView {
        DiagnosticView {
            code: self.code,
            severity: self.severity,
            message: self.message@,
            span: self.span,
            source_range: self.source_range,
        }
    }
}

/// The lines and characters of an optional range of bytes.
pub open spec fn range_of(chars: Seq<char>, span: Option<Span>) -> Option<SourceRange> {
    match span {
        None => None,
        Some(span) => match (
            position_at(chars, span.start as int),
            position_at(chars, span.end as int),
        ) {
            (Some(start), Some(end)) => Some(SourceRange { start, end }),
            _ => None,
        },
    }
}

impl DiagnosticView {
    /// An error at a place, before its lines are known.
    pub open spec fn error(code: DiagnosticCode, message: Seq<char>, span: Span) -> Self {
        DiagnosticView {
            code,
            severity: DiagnosticSeverity::Error,
            message,
            span: Some(span),
            source_range: None,
        }
    }

    /// A diagnostic with the lines and characters of its place.
    pub open spec fn located(self, chars: Seq<char>) -> Self {
        DiagnosticView { source_range: range_of(chars, self.span), ..self }
    }

    /// Whether this diagnostic comes before another: by where it begins, by where it ends, and by
    /// its code. One without a place comes last.
    pub open spec fn precedes(self, other: Self) -> bool {
        let left = match self.span {
            Some(span) => span,
            None => Span { start: usize::MAX, end: usize::MAX },
        };
        let right = match other.span {
            Some(span) => span,
            None => Span { start: usize::MAX, end: usize::MAX },
        };
        if left.start != right.start {
            left.start < right.start
        } else if left.end != right.end {
            left.end < right.end
        } else {
            text_precedes(self.code.text(), other.code.text(), 0)
        }
    }
}

impl Diagnostic {
    pub(crate) fn error(code: DiagnosticCode, message: String, span: Span) -> (r: Self)
        ensures
            r@ == DiagnosticView::error(code, message@, span),
    {
        Diagnostic {
            code,
            severity: DiagnosticSeverity::Error,
            message,
            span: Some(span),
            source_range: None,
        }
    }

    /// Finds the lines and characters of the place of a diagnostic.
    pub fn attach_source_range(&mut self, source: &str)
        ensures
            final(self)@ == old(self)@.located(source@),
    {
        self.source_range =
        match self.span {
            None => None,
            Some(span) => match (
                source_position(source, span.start),
                source_position(source, span.end),
            ) {
                (Some(start), Some(end)) => Some(SourceRange { start, end }),
                _ => None,
            },
        };
    }

    pub fn code(&self) -> (r: DiagnosticCode)
        ensures
            r == self.code,
    {
        self.code
    }

    pub fn severity(&self) -> (r: DiagnosticSeverity)
        ensures
            r == self.severity,
    {
        self.severity
    }

    pub fn message(&self) -> (r: &str)
        ensures
            r@ == self.message@,
    {
        self.message.as_str()
    }

    pub fn span(&self) -> (r: Option<Span>)
        ensures
            r == self.span,
    {
        self.span
    }

    pub fn source_range(&self) -> (r: Option<SourceRange>)
        ensures
            r == self.source_range,
    {
        self.source_range
    }

    fn precedes(&self, other: &Diagnostic) -> (r: bool)
        ensures
            r == self@.precedes(other@),
    {
        let left: Span = match self.span {
            Some(span) => span,
            None => Span { start: usize::MAX, end: usize::MAX },
        };
        let right: Span = match other.span {
            Some(span) => span,
            None => Span { start: usize::MAX, end: usize::MAX },
        };
        if left.start != right.start {
            left.start < right.start
        } else if left.end != right.end {
            left.end < right.end
        } else {
            text_before(self.code.as_str(), other.code.as_str())
        }
    }
}

/// What diagnostics say.
pub open spec fn diagnostic_views(diagnostics: Seq<Diagnostic>) -> Seq<DiagnosticView> {
    Seq::new(diagnostics.len(), |i: int| diagnostics[i]@)
}

/// Ordered diagnostics with one more, behind those that do not come after it.
pub open spec fn with_inserted(ordered: Seq<DiagnosticView>, diagnostic: DiagnosticView) -> Seq<
    DiagnosticView,
>
    decreases ordered.len(),
{
    if ordered.len() > 0 && diagnostic.precedes(ordered.last()) {
        with_inserted(ordered.drop_last(), diagnostic).push(ordered.last())
    } else {
        ordered.push(diagnostic)
    }
}

/// Diagnostics in order. Those that come at the same place stay as they were.
pub open spec fn in_order(diagnostics: Seq<DiagnosticView>) -> Seq<DiagnosticView>
    decreases diagnostics.len(),
{
    if diagnostics.len() == 0 {
        Seq::empty()
    } else {
        with_inserted(in_order(diagnostics.drop_last()), diagnostics.last())
    }
}

/// Diagnostics with the lines and characters of their places.
pub open spec fn all_located(diagnostics: Seq<DiagnosticView>, chars: Seq<char>) -> Seq<
    DiagnosticView,
> {
    Seq::new(diagnostics.len(), |i: int| diagnostics[i].located(chars))
}

proof fn lemma_inserted_at(ordered: Seq<DiagnosticView>, diagnostic: DiagnosticView, at: int)
    requires
        0 <= at <= ordered.len(),
        at == 0 || !diagnostic.precedes(ordered[at - 1]),
        forall|i: int| at <= i < ordered.len() ==> diagnostic.precedes(#[trigger] ordered[i]),
    ensures
        with_inserted(ordered, diagnostic) == ordered.subrange(0, at).push(diagnostic)
            + ordered.subrange(at, ordered.len() as int),
    decreases ordered.len(),
{
    if ordered.len() > at {
        let rest = ordered.drop_last();
        assert(diagnostic.precedes(ordered.last()));
        lemma_inserted_at(rest, diagnostic, at);
        assert(rest.subrange(0, at) =~= ordered.subrange(0, at));
        assert(with_inserted(ordered, diagnostic) =~= ordered.subrange(0, at).push(diagnostic)
            + ordered.subrange(at, ordered.len() as int));
    } else {
        assert(ordered.subrange(0, at) =~= ordered);
        assert(with_inserted(ordered, diagnostic) =~= ordered.subrange(0, at).push(diagnostic)
            + ordered.subrange(at, ordered.len() as int));
    }
}

fn insert_diagnostic(ordered: &mut Vec<Diagnostic>, diagnostic: Diagnostic)
    ensures
        diagnostic_views(final(ordered)@) == with_inserted(
            diagnostic_views(old(ordered)@),
            diagnostic@,
        ),
{
    let ghost before = diagnostic_views(ordered@);
    let ghost view = diagnostic@;
    let mut at: usize = ordered.len();
    while at > 0 && diagnostic.precedes(&ordered[at - 1])
        invariant
            at <= ordered@.len(),
            before == diagnostic_views(ordered@),
            view == diagnostic@,
            forall|i: int| at <= i < before.len() ==> view.precedes(#[trigger] before[i]),
        decreases at,
    {
        at = at - 1;
    }
    proof {
        lemma_inserted_at(before, view, at as int);
    }
    ordered.insert(at, diagnostic);
    assert(diagnostic_views(ordered@) =~= before.subrange(0, at as int).push(view)
        + before.subrange(at as int, before.len() as int));
}

/// Finds the lines and characters of the places of diagnostics, and puts them in order.
pub fn finish_diagnostics(diagnostics: Vec<Diagnostic>, source: &str) -> (r: Vec<Diagnostic>)
    ensures
        diagnostic_views(r@) == in_order(all_located(diagnostic_views(diagnostics@), source@)),
{
    let ghost all = diagnostics@;
    let ghost located = all_located(diagnostic_views(all), source@);
    let mut ordered: Vec<Diagnostic> = Vec::new();
    assert(diagnostic_views(ordered@) =~= in_order(located.subrange(0, 0)));
    for diagnostic in iter: diagnostics
        invariant
            iter.seq() == all,
            located == all_located(diagnostic_views(all), source@),
            diagnostic_views(ordered@) == in_order(located.subrange(0, iter.index() as int)),
    {
        let ghost at = iter.index() as int;
        let mut diagnostic: Diagnostic = diagnostic;
        diagnostic.attach_source_range(source);
        proof {
            let through = located.subrange(0, at + 1);
            assert(through.drop_last() =~= located.subrange(0, at));
            assert(through.last() == diagnostic@);
        }
        insert_diagnostic(&mut ordered, diagnostic);
    }
    assert(located.subrange(0, located.len() as int) =~= located);
    ordered
}

proof fn lemma_text_order(left: Seq<char>, middle: Seq<char>, right: Seq<char>, at: int)
    requires
        0 <= at <= left.len(),
        at <= middle.len(),
        at <= right.len(),
        !text_precedes(middle, left, at),
        !text_precedes(right, middle, at),
    ensures
        !text_precedes(right, left, at),
    decreases left.len() - at,
{
    if at < left.len() && at < middle.len() && at < right.len() {
        if left[at] == middle[at] && middle[at] == right[at] {
            lemma_text_order(left, middle, right, at + 1);
        }
    }
}

proof fn lemma_order_is_transitive(
    left: DiagnosticView,
    middle: DiagnosticView,
    right: DiagnosticView,
)
    requires
        !middle.precedes(left),
        !right.precedes(middle),
    ensures
        !right.precedes(left),
{
    let (first, second, third) = (left.code.text(), middle.code.text(), right.code.text());
    if !text_precedes(second, first, 0) && !text_precedes(third, second, 0) {
        lemma_text_order(first, second, third, 0);
    }
}

proof fn lemma_text_order_is_strict(left: Seq<char>, right: Seq<char>, at: int)
    requires
        text_precedes(left, right, at),
    ensures
        !text_precedes(right, left, at),
    decreases left.len() - at,
{
    if at < left.len() && at < right.len() && left[at] == right[at] {
        lemma_text_order_is_strict(left, right, at + 1);
    }
}

/// Whether no diagnostic comes after one that it should come before.
pub open spec fn is_ordered(diagnostics: Seq<DiagnosticView>) -> bool {
    forall|i: int, j: int|
        0 <= i < j < diagnostics.len() ==> !(#[trigger] diagnostics[j]).precedes(
            #[trigger] diagnostics[i],
        )
}

proof fn lemma_inserted_is_ordered(ordered: Seq<DiagnosticView>, diagnostic: DiagnosticView)
    requires
        is_ordered(ordered),
    ensures
        is_ordered(with_inserted(ordered, diagnostic)),
        with_inserted(ordered, diagnostic).to_multiset() == ordered.to_multiset().insert(
            diagnostic,
        ),
        forall|i: int|
            0 <= i < with_inserted(ordered, diagnostic).len() ==> #[trigger] with_inserted(
                ordered,
                diagnostic,
            )[i] == diagnostic || exists|j: int|
                0 <= j < ordered.len() && ordered[j] == with_inserted(ordered, diagnostic)[i],
    decreases ordered.len(),
{
    broadcast use vstd::seq_lib::group_to_multiset_ensures;

    let made = with_inserted(ordered, diagnostic);
    if ordered.len() > 0 && diagnostic.precedes(ordered.last()) {
        let rest = ordered.drop_last();
        let last = ordered.last();
        let inner = with_inserted(rest, diagnostic);
        assert(is_ordered(rest)) by {
            assert forall|i: int, j: int| 0 <= i < j < rest.len() implies !(
            #[trigger] rest[j]).precedes(#[trigger] rest[i]) by {
                assert(rest[j] == ordered[j] && rest[i] == ordered[i]);
            }
        }
        lemma_inserted_is_ordered(rest, diagnostic);
        assert(ordered =~= rest.push(last));
        lemma_before_is_strict(diagnostic, last);
        assert forall|i: int, j: int| 0 <= i < j < made.len() implies !(#[trigger] made[j]).precedes(
            #[trigger] made[i],
        ) by {
            if j == inner.len() {
                assert(made[i] == inner[i]);
                if inner[i] != diagnostic {
                    let k = choose|k: int| 0 <= k < rest.len() && rest[k] == inner[i];
                    assert(ordered[k] == inner[i]);
                }
            } else {
                assert(made[i] == inner[i] && made[j] == inner[j]);
            }
        }
        assert forall|i: int| 0 <= i < made.len() implies #[trigger] made[i] == diagnostic || exists|
            j: int,
        | 0 <= j < ordered.len() && ordered[j] == made[i] by {
            if i == inner.len() {
                assert(ordered[ordered.len() - 1] == made[i]);
            } else {
                assert(made[i] == inner[i]);
                if inner[i] != diagnostic {
                    let k = choose|k: int| 0 <= k < rest.len() && rest[k] == inner[i];
                    assert(ordered[k] == made[i]);
                }
            }
        }
        assert(made.to_multiset() =~= ordered.to_multiset().insert(diagnostic));
    } else {
        assert forall|i: int, j: int| 0 <= i < j < made.len() implies !(#[trigger] made[j]).precedes(
            #[trigger] made[i],
        ) by {
            if j == ordered.len() && i < ordered.len() - 1 {
                lemma_order_is_transitive(ordered[i], ordered.last(), diagnostic);
            }
        }
        assert forall|i: int| 0 <= i < made.len() implies #[trigger] made[i] == diagnostic || exists|
            j: int,
        | 0 <= j < ordered.len() && ordered[j] == made[i] by {
            if i < ordered.len() {
                assert(ordered[i] == made[i]);
            }
        }
    }
}

proof fn lemma_before_is_strict(left: DiagnosticView, right: DiagnosticView)
    requires
        left.precedes(right),
    ensures
        !right.precedes(left),
{
    if text_precedes(left.code.text(), right.code.text(), 0) {
        lemma_text_order_is_strict(left.code.text(), right.code.text(), 0);
    }
}

/// Finished diagnostics are ordered, and are those that were given.
pub proof fn diagnostics_are_ordered(diagnostics: Seq<DiagnosticView>)
    ensures
        is_ordered(in_order(diagnostics)),
        in_order(diagnostics).to_multiset() == diagnostics.to_multiset(),
    decreases diagnostics.len(),
{
    broadcast use vstd::seq_lib::group_to_multiset_ensures;

    if diagnostics.len() > 0 {
        let rest = diagnostics.drop_last();
        diagnostics_are_ordered(rest);
        lemma_inserted_is_ordered(in_order(rest), diagnostics.last());
        assert(diagnostics =~= rest.push(diagnostics.last()));
    } else {
        assert(in_order(diagnostics) =~= diagnostics);
    }
}

/// The typed pipeline of a query, and what is to be said of it.
#[derive(Debug, PartialEq, Eq)]
pub struct Analysis {
    pub pipeline: Pipeline,
    pub diagnostics: Vec<Diagnostic>,
}

impl Analysis {
    pub fn pipeline(&self) -> (r: &Pipeline)
        ensures
            *r == self.pipeline,
    {
        &self.pipeline
    }

    pub fn diagnostics(&self) -> (r: &[Diagnostic])
        ensures
            r@ == self.diagnostics@,
    {
        self.diagnostics.as_slice()
    }

    pub fn into_pipeline(self) -> (r: Pipeline)
        ensures
            r == self.pipeline,
    {
        self.pipeline
    }
}

/// How far the analysis of a query has come: to its end, or to something that must be known of its
/// floating-point constants.
#[derive(Debug, PartialEq, Eq)]
pub enum AnalysisStep {
    Finished(Analysis),
    Unknown(FloatQuestion),
}

/// Why a query has no typed pipeline.
#[derive(Debug, PartialEq, Eq)]
pub struct AnalyzeError {
    pub code: AnalyzeErrorCode,
    /// What was wrong with the query, if it could be parsed.
    pub semantic: Option<SemanticError>,
    pub diagnostics: Vec<Diagnostic>,
}

/// How a diagnostic is shown.
pub open spec fn shown_diagnostic(diagnostic: DiagnosticView) -> Seq<char> {
    let text = "\n"@ + diagnostic.severity.text() + " "@ + diagnostic.code.text() + ": "@
        + diagnostic.message;
    match diagnostic.source_range {
        Some(range) => text + " at "@ + decimal_text(range.start.line as nat) + ":"@ + decimal_text(
            range.start.column as nat,
        ),
        None => text,
    }
}

/// How diagnostics are shown.
pub open spec fn shown_diagnostics(diagnostics: Seq<DiagnosticView>) -> Seq<char>
    decreases diagnostics.len(),
{
    if diagnostics.len() == 0 {
        Seq::empty()
    } else {
        shown_diagnostics(diagnostics.drop_last()) + shown_diagnostic(diagnostics.last())
    }
}

fn show_diagnostic(diagnostic: &Diagnostic) -> (r: String)
    ensures
        r@ == shown_diagnostic(diagnostic@),
{
    let text: String = "\n".to_owned().concat(diagnostic.severity.as_str()).concat(" ").concat(
        diagnostic.code.as_str(),
    ).concat(": ").concat(diagnostic.message.as_str());
    match diagnostic.source_range {
        Some(range) => {
            let line: String = decimal(range.start.line as u64);
            let column: String = decimal(range.start.column as u64);
            text.concat(" at ").concat(line.as_str()).concat(":").concat(column.as_str())
        },
        None => text,
    }
}

impl AnalyzeError {
    /// The error for a query that was not parsed.
    pub(crate) fn syntax(message: String, span: Span) -> (r: Self)
        ensures
            r.code == AnalyzeErrorCode::Syntax,
            r.semantic is None,
            diagnostic_views(r.diagnostics@) == seq![
                DiagnosticView::error(DiagnosticCode::SyntaxError, message@, span),
            ],
    {
        let ghost text = message@;
        let mut diagnostics: Vec<Diagnostic> = Vec::new();
        diagnostics.push(Diagnostic::error(DiagnosticCode::SyntaxError, message, span));
        assert(diagnostic_views(diagnostics@) =~= seq![
            DiagnosticView::error(DiagnosticCode::SyntaxError, text, span),
        ]);
        AnalyzeError { code: AnalyzeErrorCode::Syntax, semantic: None, diagnostics }
    }

    /// The error for a query that was parsed.
    pub(crate) fn semantic(error: SemanticError) -> (r: Self)
        ensures
            r.code == AnalyzeErrorCode::Semantic,
            r.semantic == Some(error),
            diagnostic_views(r.diagnostics@) == seq![
                DiagnosticView::error(error.kind(), error.text(), error.place()),
            ],
    {
        let mut diagnostics: Vec<Diagnostic> = Vec::new();
        diagnostics.push(Diagnostic::error(error.code(), error.message(), error.span()));
        assert(diagnostic_views(diagnostics@) =~= seq![
            DiagnosticView::error(error.kind(), error.text(), error.place()),
        ]);
        AnalyzeError { code: AnalyzeErrorCode::Semantic, semantic: Some(error), diagnostics }
    }

    pub fn code(&self) -> (r: AnalyzeErrorCode)
        ensures
            r == self.code,
    {
        self.code
    }

    pub fn diagnostics(&self) -> (r: &[Diagnostic])
        ensures
            r@ == self.diagnostics@,
    {
        self.diagnostics.as_slice()
    }

    pub fn semantic_error(&self) -> (r: Option<&SemanticError>)
        ensures
            match self.semantic {
                Some(error) => r == Some(&error),
                None => r is None,
            },
    {
        self.semantic.as_ref()
    }

    pub fn to_string(&self) -> (r: String)
        ensures
            r@ == self.code.text() + shown_diagnostics(diagnostic_views(self.diagnostics@)),
    {
        let ghost views = diagnostic_views(self.diagnostics@);
        let mut text: String = self.code.as_str().to_owned();
        let mut index: usize = 0;
        assert(views.subrange(0, 0) =~= Seq::empty());
        assert(text@ =~= self.code.text() + shown_diagnostics(views.subrange(0, 0)));
        while index < self.diagnostics.len()
            invariant
                index <= self.diagnostics@.len(),
                views == diagnostic_views(self.diagnostics@),
                text@ == self.code.text() + shown_diagnostics(views.subrange(0, index as int)),
            decreases self.diagnostics@.len() - index,
        {
            let shown: String = show_diagnostic(&self.diagnostics[index]);
            text.append(shown.as_str());
            proof {
                let through = views.subrange(0, index + 1);
                assert(through.drop_last() =~= views.subrange(0, index as int));
                assert(through.last() == views[index as int]);
                assert(text@ =~= self.code.text() + shown_diagnostics(through));
            }
            index = index + 1;
        }
        assert(views.subrange(0, views.len() as int) =~= views);
        text
    }
}

/// Whether the `count` characters before a byte offset are those that its bytes encode.
pub open spec fn lies_behind(chars: Seq<char>, count: int, offset: int) -> bool {
    &&& 0 <= count <= chars.len()
    &&& encode_utf8(chars.subrange(0, count)).len() == offset
}

/// Whether the line in which the character at `count` stands begins at `start`.
pub open spec fn begins_line(chars: Seq<char>, start: int, count: int) -> bool {
    &&& 0 <= start <= count <= chars.len()
    &&& start == 0 || chars[start - 1] == '\n'
    &&& forall|i: int| start <= i < count ==> chars[i] != '\n'
}

/// The line breaks among characters.
pub open spec fn line_breaks(chars: Seq<char>) -> Seq<char> {
    chars.filter(|c: char| c == '\n')
}

proof fn lemma_one_more_char(chars: Seq<char>, c: char)
    ensures
        encode_utf8(chars.push(c)).len() == encode_utf8(chars).len() + char_width(c),
    decreases chars.len(),
{
    let longer = chars.push(c);
    if chars.len() == 0 {
        assert(longer.drop_first() =~= Seq::empty());
        assert(encode_utf8(longer.drop_first()).len() == 0);
    } else {
        lemma_one_more_char(chars.drop_first(), c);
        assert(longer.drop_first() =~= chars.drop_first().push(c));
    }
}

proof fn lemma_one_more_break(chars: Seq<char>, count: int)
    requires
        0 <= count < chars.len(),
    ensures
        line_breaks(chars.subrange(0, count + 1)).len() == line_breaks(
            chars.subrange(0, count),
        ).len() + if chars[count] == '\n' {
            1int
        } else {
            0
        },
        line_breaks(chars.subrange(0, count)).len() <= count,
    decreases count,
{
    reveal(Seq::filter);
    let longer = chars.subrange(0, count + 1);
    assert(longer.drop_last() =~= chars.subrange(0, count));
    if count > 0 {
        lemma_one_more_break(chars, count - 1);
    }
}

proof fn lemma_position(
    chars: Seq<char>,
    index: int,
    offset: int,
    position: SourcePosition,
    start: int,
    whole: int,
)
    requires
        0 <= offset,
        whole == encode_utf8(chars.subrange(0, index)).len() + offset,
        begins_line(chars, start, index),
        position.line == 1 + line_breaks(chars.subrange(0, index)).len(),
        position.column == 1 + index - start,
    ensures
        position_from(chars, index, offset, position) matches Some(at) ==> stands_at(
            chars,
            whole,
            at,
        ),
        position_from(chars, index, offset, position) is None && chars.len() < usize::MAX ==> forall|
            count: int,
        | index <= count ==> !#[trigger] lies_behind(chars, count, whole),
    decreases chars.len() - index,
{
    let found = position_from(chars, index, offset, position);
    if offset == 0 {
        assert(lies_behind(chars, index, whole));
        assert(stands_from(chars, whole, position, index, start));
    } else if index < chars.len() {
        let c = chars[index];
        assert(chars.subrange(0, index + 1) =~= chars.subrange(0, index).push(c));
        lemma_one_more_char(chars.subrange(0, index), c);
        lemma_one_more_break(chars, index);
        if offset >= char_width(c) {
            if c == '\n' {
                if position.line < usize::MAX {
                    let next = SourcePosition { line: (position.line + 1) as usize, column: 1 };
                    lemma_position(chars, index + 1, offset - char_width(c), next, index + 1, whole);
                    assert(found == position_from(chars, index + 1, offset - char_width(c), next));
                }
            } else if position.column < usize::MAX {
                let next = SourcePosition {
                    line: position.line,
                    column: (position.column + 1) as usize,
                };
                lemma_position(chars, index + 1, offset - char_width(c), next, start, whole);
                assert(found == position_from(chars, index + 1, offset - char_width(c), next));
            }
        } else {
            let next = SourcePosition {
                line: position.line,
                column: (position.column + 1) as usize,
            };
            assert(position_from(chars, index + 1, offset - char_width(c), next) is None);
            assert forall|count: int| index < count implies !#[trigger] lies_behind(
                chars,
                count,
                whole,
            ) by {
                if count <= chars.len() {
                    lemma_longer_texts(chars, index + 1, count);
                }
            }
        }
        assert(!lies_behind(chars, index, whole));
        if found is None && chars.len() < usize::MAX {
            assert forall|count: int| index <= count implies !#[trigger] lies_behind(
                chars,
                count,
                whole,
            ) by {
                assert(count == index || index + 1 <= count);
            }
        }
    }
}

proof fn lemma_longer_texts(chars: Seq<char>, few: int, many: int)
    requires
        0 <= few <= many <= chars.len(),
    ensures
        encode_utf8(chars.subrange(0, few)).len() <= encode_utf8(chars.subrange(0, many)).len(),
    decreases many - few,
{
    if few < many {
        lemma_longer_texts(chars, few, many - 1);
        assert(chars.subrange(0, many) =~= chars.subrange(0, many - 1).push(chars[many - 1]));
        lemma_one_more_char(chars.subrange(0, many - 1), chars[many - 1]);
    }
}

/// Whether a position is that of a byte offset behind `count` characters, in the line that begins at
/// `start`: its line is one more than the line breaks before it, and its column one more than the
/// characters before it in its line.
pub open spec fn stands_from(
    chars: Seq<char>,
    offset: int,
    position: SourcePosition,
    count: int,
    start: int,
) -> bool {
    &&& lies_behind(chars, count, offset)
    &&& begins_line(chars, start, count)
    &&& position.line == 1 + line_breaks(chars.subrange(0, count)).len()
    &&& position.column == 1 + count - start
}

/// Whether a position is that of a byte offset.
pub open spec fn stands_at(chars: Seq<char>, offset: int, position: SourcePosition) -> bool {
    exists|count: int, start: int| #[trigger] stands_from(chars, offset, position, count, start)
}

/// A position counts the lines and, within its line, the characters before a byte offset, both from
/// one. A query that is not longer than memory has a position at each offset between two of its
/// characters.
pub proof fn positions_count_lines_and_characters(chars: Seq<char>, offset: int, count: int)
    requires
        0 <= offset,
    ensures
        position_at(chars, offset) matches Some(position) ==> stands_at(chars, offset, position),
        lies_behind(chars, count, offset) && chars.len() < usize::MAX ==> position_at(
            chars,
            offset,
        ) is Some,
{
    let first = SourcePosition { line: 1, column: 1 };
    assert(chars.subrange(0, 0) =~= Seq::empty());
    reveal(Seq::filter);
    assert(line_breaks(chars.subrange(0, 0)).len() == 0);
    assert(encode_utf8(chars.subrange(0, 0)).len() == 0);
    lemma_position(chars, 0, offset, first, 0, offset);
}

/// Finished diagnostics stand by where they begin, then by where they end, and those without a place
/// behind all others.
pub proof fn diagnostics_stand_by_their_places(
    diagnostics: Seq<DiagnosticView>,
    i: int,
    j: int,
)
    requires
        0 <= i < j < in_order(diagnostics).len(),
    ensures
        match (in_order(diagnostics)[i].span, in_order(diagnostics)[j].span) {
            (Some(left), Some(right)) => left.start < right.start || (left.start == right.start
                && left.end <= right.end),
            (None, Some(right)) => right.start == usize::MAX && right.end == usize::MAX,
            (_, None) => true,
        },
{
    diagnostics_are_ordered(diagnostics);
    let ordered = in_order(diagnostics);
    assert(!ordered[j].precedes(ordered[i]));
}

} // verus!
