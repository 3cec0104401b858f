use elucid::catalog::{Field, FieldRole, LogicalType, Nullability, Schema, Source};
use elucid::identity::{FieldId, SchemaId, SourceId};
use elucid::language::analyze::{analyze as analyze_step, analyze_parsed, parse};
use elucid::language::error::{
    source_position, Analysis, AnalysisStep, AnalyzeError, AnalyzeErrorCode, DiagnosticCode,
    DiagnosticSeverity, Reason, SemanticError,
};
use elucid::language::floats::{
    FloatComparison, FloatComputation, FloatFacts, FloatNumeral, FloatOrder, FloatQuestion,
};
use elucid::language::fold::{fold_binary, fold_unary, FoldFault};
use elucid::language::ir::{
    AggregateExpression, AggregateFunction, BinaryOperator, Expression, ExpressionKind,
    FloatConstant, FloatMagnitude, Literal, NullPredicate, Pipeline, Relation, SortOrder,
    SortSpec, Stage, StageKind, TimeRange, UnaryOperator, UtcInstant,
};
use elucid::language::literal::{accept_instant, parse_datetime, parse_eid};
use elucid::language::pipeline::CatalogSnapshot;
use elucid::language::span::Span;
use elucid::language::time::QueryTimeContext;
use elucid::language::validate::{validate_pipeline, PipelineError};

fn uuid(suffix: u128) -> u128 {
    0x018f_0000_0000_7000_8000_0000_0000_0000 | suffix
}

fn field(
    suffix: u128,
    name: &str,
    logical_type: LogicalType,
    nullability: Nullability,
    role: FieldRole,
) -> Field {
    Field {
        id: FieldId::new(uuid(suffix)).expect("field identity is valid"),
        name: name.to_owned(),
        logical_type,
        nullability,
        role,
    }
}

fn source_with(user_fields: Vec<Field>) -> Source {
    let source_id = SourceId::new(uuid(1)).expect("source identity is valid");
    let schema_id = SchemaId::new(uuid(2)).expect("schema identity is valid");
    let mut fields = vec![
        field(
            101,
            "@event_time",
            LogicalType::Datetime,
            Nullability::NonNull,
            FieldRole::EventTime,
        ),
        field(
            102,
            "@ingestion_time",
            LogicalType::Datetime,
            Nullability::NonNull,
            FieldRole::IngestTime,
        ),
        field(
            103,
            "@event_id",
            LogicalType::Eid,
            Nullability::NonNull,
            FieldRole::EventId,
        ),
    ];
    fields.extend(user_fields);
    fields.push(field(
        104,
        "@rest",
        LogicalType::Json,
        Nullability::NonNull,
        FieldRole::Remainder,
    ));
    Source {
        id: source_id,
        name: "logs".to_owned(),
        active_schema_id: schema_id,
        schemas: vec![Schema {
            id: schema_id,
            source_id,
            fields,
        }],
        inputs: Vec::new(),
    }
}

fn user_field(
    suffix: u128,
    name: &str,
    logical_type: LogicalType,
    nullability: Nullability,
) -> Field {
    field(suffix, name, logical_type, nullability, FieldRole::Data)
}

fn catalog_source() -> Source {
    source_with(vec![
        user_field(3, "service", LogicalType::Utf8, Nullability::NonNull),
        user_field(4, "status", LogicalType::Int32, Nullability::Nullable),
        user_field(5, "bytes", LogicalType::Int64, Nullability::Nullable),
    ])
}

fn typed_catalog_source() -> Source {
    source_with(vec![
        user_field(3, "service", LogicalType::Utf8, Nullability::NonNull),
        user_field(4, "active", LogicalType::Bool, Nullability::Nullable),
        user_field(5, "status", LogicalType::Int32, Nullability::Nullable),
        user_field(6, "bytes", LogicalType::Int64, Nullability::Nullable),
        user_field(7, "requests", LogicalType::UInt32, Nullability::NonNull),
        user_field(8, "ratio", LogicalType::Float32, Nullability::NonNull),
    ])
}

fn bounded_time_context() -> QueryTimeContext {
    QueryTimeContext::new(
        UtcInstant::unix_epoch(),
        Some(UtcInstant::from_unix_milliseconds(-172_800_000)),
        Some(UtcInstant::from_unix_milliseconds(172_800_000)),
    )
}

fn double_of(constant: &FloatConstant) -> f64 {
    if constant.single {
        return f64::from(single_of(constant));
    }
    let magnitude: f64 = match &constant.magnitude {
        FloatMagnitude::Integer(value) => *value as f64,
        FloatMagnitude::Decimal(text) => text.parse().expect("a numeral"),
    };
    if constant.negative { -magnitude } else { magnitude }
}

fn single_of(constant: &FloatConstant) -> f32 {
    let magnitude: f32 = match &constant.magnitude {
        FloatMagnitude::Integer(value) => *value as f32,
        FloatMagnitude::Decimal(text) => text.parse().expect("a numeral"),
    };
    if constant.negative { -magnitude } else { magnitude }
}

fn answer(facts: &mut FloatFacts, question: FloatQuestion) {
    match question {
        FloatQuestion::Compare { left, right } => {
            let (first, second) = (double_of(&left), double_of(&right));
            let order = if first < second {
                FloatOrder::Less
            } else if first > second {
                FloatOrder::Greater
            } else {
                FloatOrder::Equal
            };
            facts.comparisons.push(FloatComparison { left, right, order });
        }
        FloatQuestion::Compute { operator, left, right, single } => {
            let result = if single {
                let (first, second) = (single_of(&left), single_of(&right));
                let value = match operator {
                    BinaryOperator::Add => first + second,
                    BinaryOperator::Subtract => first - second,
                    BinaryOperator::Multiply => first * second,
                    _ => first / second,
                };
                (value.is_finite(), value.is_sign_negative(), value.abs().to_string())
            } else {
                let (first, second) = (double_of(&left), double_of(&right));
                let value = match operator {
                    BinaryOperator::Add => first + second,
                    BinaryOperator::Subtract => first - second,
                    BinaryOperator::Multiply => first * second,
                    _ => first / second,
                };
                (value.is_finite(), value.is_sign_negative(), value.abs().to_string())
            };
            let (finite, negative, text) = result;
            let result = if finite { Some(FloatNumeral { negative, text }) } else { None };
            facts.computations.push(FloatComputation { operator, left, right, single, result });
        }
    }
}

/// Analyzes a query, answering what the analysis must know of floating-point constants.
fn analyze(
    query: &str,
    catalog: &CatalogSnapshot<'_>,
    context: &QueryTimeContext,
) -> Result<Analysis, AnalyzeError> {
    let mut facts = FloatFacts::new();
    loop {
        match analyze_step(query, catalog, context, &facts)? {
            AnalysisStep::Finished(analysis) => return Ok(analysis),
            AnalysisStep::Unknown(question) => answer(&mut facts, question),
        }
    }
}

fn finished(step: AnalysisStep) -> Analysis {
    match step {
        AnalysisStep::Finished(analysis) => analysis,
        AnalysisStep::Unknown(question) => panic!("{question:?} is not known"),
    }
}

fn analyze_query(query: &str) -> Result<Pipeline, AnalyzeError> {
    let source = catalog_source();
    analyze(
        query,
        &CatalogSnapshot::new(&source),
        &bounded_time_context(),
    )
    .map(Analysis::into_pipeline)
}

fn analyze_typed(query: &str) -> Result<Analysis, AnalyzeError> {
    let source = typed_catalog_source();
    analyze(
        query,
        &CatalogSnapshot::new(&source),
        &bounded_time_context(),
    )
}

fn semantic_errors(error: AnalyzeError) -> Vec<SemanticError> {
    match error.semantic {
        Some(semantic) => vec![semantic],
        None => panic!("query unexpectedly failed to parse: {}", error.to_string()),
    }
}

fn field_names(relation: &Relation) -> Vec<&str> {
    relation.fields().iter().map(|field| field.name()).collect()
}

#[test]
fn canonical_relations_resolve_catalog_and_derived_fields() {
    let pipeline = analyze_query(
        "source logs | filter status >= 400 | project @event_time, service_name = service, status | summarize events = count(), maximum_status = max(status) by service_name | sort by -events | take 10",
    )
    .expect("catalog-backed query is valid");

    assert_eq!(pipeline.source().name(), "logs");
    assert_eq!(pipeline.stages().len(), 5);
    let StageKind::Filter(filter) = pipeline.stages()[0].kind() else {
        panic!("expected filter stage");
    };
    assert_eq!(filter.logical_type(), LogicalType::Bool);
    assert_eq!(filter.nullability(), Nullability::Nullable);
    let ExpressionKind::Binary { right, .. } = filter.kind() else {
        panic!("expected a comparison");
    };
    assert_eq!(right.kind(), &ExpressionKind::Literal(Literal::Int32(400)));
    let StageKind::Aggregate { measures, group_by } = pipeline.stages()[2].kind() else {
        panic!("expected aggregate stage");
    };
    assert_eq!(measures[0].function(), AggregateFunction::Count);
    assert_eq!(measures[1].argument().expect("argument").name(), "status");
    assert_eq!(group_by[0].name(), "service_name");
    let StageKind::Sort(specs) = pipeline.stages()[3].kind() else {
        panic!("expected sort stage");
    };
    assert_eq!(specs[0].order(), SortOrder::Descending);
    assert!(matches!(pipeline.stages()[4].kind(), StageKind::Take(10)));
}

#[test]
fn every_stage_exposes_the_relation_seen_by_the_next_stage() {
    let pipeline = analyze_query(
        "source logs | project service_name = service, status | summarize events = count(), maximum_status = max(status) by service_name | sort by -events",
    )
    .expect("catalog-backed query is valid");

    assert_eq!(
        field_names(pipeline.source_relation()),
        [
            "@event_time",
            "@ingestion_time",
            "@event_id",
            "service",
            "status",
            "bytes",
            "@rest",
        ]
    );
    assert_eq!(
        field_names(pipeline.stages()[0].output_relation()),
        ["service_name", "status"]
    );
    assert_eq!(
        field_names(pipeline.stages()[1].output_relation()),
        ["service_name", "events", "maximum_status"]
    );
    assert_eq!(
        field_names(pipeline.stages()[2].output_relation()),
        ["service_name", "events", "maximum_status"]
    );
    assert_eq!(
        field_names(pipeline.output_relation()),
        ["service_name", "events", "maximum_status"]
    );
}

#[derive(Clone, Copy)]
enum ResolutionFailure {
    Source,
    Field,
}

#[test]
fn names_are_resolved_only_from_the_catalog_or_preceding_relation() {
    let cases = [
        ("source absent", "absent", 7..13, ResolutionFailure::Source),
        (
            "source logs | project service | sort by status",
            "status",
            40..46,
            ResolutionFailure::Field,
        ),
        (
            "source logs | project @unknown",
            "@unknown",
            22..30,
            ResolutionFailure::Field,
        ),
    ];

    for (query, expected_name, expected_span, failure) in cases {
        let error = analyze_query(query).expect_err("name must not resolve");
        let errors = semantic_errors(error);
        assert_eq!(errors.len(), 1, "{query}: {errors:?}");
        match (&errors[0], failure) {
            (SemanticError::SourceNotFound { name, span }, ResolutionFailure::Source) => {
                assert_eq!(name, expected_name);
                assert_eq!(*span, Span::new(expected_span));
            }
            (SemanticError::FieldNotFound { name, span }, ResolutionFailure::Field) => {
                assert_eq!(name, expected_name);
                assert_eq!(*span, Span::new(expected_span));
            }
            (actual, _) => panic!("{query}: unexpected semantic error {actual:?}"),
        }
    }
}

#[test]
fn transformed_relations_reject_duplicate_output_names() {
    for query in [
        "source logs | project service, service",
        "source logs | summarize service = count() by service",
    ] {
        let error = analyze_query(query).expect_err("duplicate output must be rejected");
        let errors = semantic_errors(error);
        assert!(matches!(
            errors.as_slice(),
            [SemanticError::DuplicateOutputField { name, .. }] if name == "service"
        ));
    }
}

#[test]
fn only_sort_and_take_can_follow_summarize() {
    let query = "source logs | summarize events = count() | filter status == 500";
    let error = analyze_query(query).expect_err("filter after summarize must be rejected");
    let errors = semantic_errors(error);

    assert!(matches!(
        errors.as_slice(),
        [SemanticError::StageOrderInvalid { span }] if *span == Span::new(43..63)
    ));
}

#[test]
fn take_accepts_zero_with_or_without_a_minus_sign() {
    for query in ["source logs | take 0", "source logs | take -0"] {
        let pipeline = analyze_query(query).expect("zero is a valid take value");
        assert!(matches!(pipeline.stages()[0].kind(), StageKind::Take(0)));
    }
}

#[test]
fn take_rejects_a_negative_value() {
    let error =
        analyze_query("source logs | take -1").expect_err("negative take must be rejected");
    assert!(matches!(
        semantic_errors(error).as_slice(),
        [SemanticError::InvalidLimitValue { value: -1, .. }]
    ));
}

#[test]
fn take_rejects_values_outside_the_signed_range() {
    for query in [
        "source logs | take 9223372036854775808",
        "source logs | take -9223372036854775809",
    ] {
        let error = analyze_query(query).expect_err("take must be rejected");
        assert!(matches!(
            semantic_errors(error).as_slice(),
            [SemanticError::LimitOutOfRange { .. }]
        ));
    }
    let error = analyze_query("source logs | take -9223372036854775808").expect_err("rejected");
    assert!(matches!(
        semantic_errors(error).as_slice(),
        [SemanticError::InvalidLimitValue {
            value: i64::MIN,
            ..
        }]
    ));
}

#[test]
fn typed_expression_analysis_is_canonical() {
    let query = r#"source logs start_inclusive=-1d@h end_exclusive=datetime("1970-01-02T03:00:00+03:00") | filter status >= 400 and active | project @event_time, widened = status + ratio, dynamic_status = try_cast(experimental_status as int32), explicit_value = rest("explicit_null"), explicit_present = rest_exists("explicit_null"), stamp = datetime("1970-01-01T00:00:00.123Z"), event = eid("00112233445566778899aabbccddeeff"), constant = 1 + 2 * 3 | sort by -dynamic_status"#;
    let analysis = analyze_typed(query).expect("canonical typed query is valid");

    assert_eq!(analysis.diagnostics().len(), 1);
    assert_eq!(
        analysis.diagnostics()[0].code(),
        DiagnosticCode::FieldResolvedFromRemainder
    );
    assert_eq!(
        analysis.diagnostics()[0].severity(),
        DiagnosticSeverity::Warning
    );

    let range = analysis.pipeline().time_range();
    assert_eq!(range.start_inclusive().unix_milliseconds(), -86_400_000);
    assert_eq!(range.end_exclusive().unix_milliseconds(), 86_400_000);

    let StageKind::Project(projections) = analysis.pipeline().stages()[1].kind() else {
        panic!("expected project stage");
    };
    let types: Vec<LogicalType> = projections
        .iter()
        .map(|projection| projection.expression().logical_type())
        .collect();
    assert_eq!(
        types,
        [
            LogicalType::Datetime,
            LogicalType::Float64,
            LogicalType::Int32,
            LogicalType::Json,
            LogicalType::Bool,
            LogicalType::Datetime,
            LogicalType::Eid,
            LogicalType::Int64,
        ]
    );
    assert_eq!(
        projections[5].expression().kind(),
        &ExpressionKind::Literal(Literal::Datetime(UtcInstant::from_unix_milliseconds(123)))
    );
    assert_eq!(
        projections[6].expression().kind(),
        &ExpressionKind::Literal(Literal::Eid([
            0x00, 0x11, 0x22, 0x33, 0x44, 0x55, 0x66, 0x77, 0x88, 0x99, 0xaa, 0xbb, 0xcc, 0xdd,
            0xee, 0xff,
        ]))
    );
    assert_eq!(
        projections[7].expression().kind(),
        &ExpressionKind::Literal(Literal::Int64(7))
    );
}

#[test]
fn exact_literals_widening_and_constant_evaluation_preserve_types() {
    let analysis = analyze_typed(
        "source logs | project default_integer = 12, minimum = int32(-2147483648), maximum = uint64(18446744073709551615), contextual = status + 1, widened = status + ratio, folded = 1 + 2 * 3, null_sum = 1 + null, missing = active == null",
    )
    .expect("typed numeric expressions are valid");

    let fields = analysis.pipeline().output_relation().fields();
    assert_eq!(fields[0].logical_type(), LogicalType::Int64);
    assert_eq!(fields[1].logical_type(), LogicalType::Int32);
    assert_eq!(fields[2].logical_type(), LogicalType::UInt64);
    assert_eq!(fields[3].logical_type(), LogicalType::Int32);
    assert_eq!(fields[3].nullability(), Nullability::Nullable);
    assert_eq!(fields[4].logical_type(), LogicalType::Float64);
    assert_eq!(fields[5].logical_type(), LogicalType::Int64);
    assert_eq!(fields[6].logical_type(), LogicalType::Int64);
    assert_eq!(fields[6].nullability(), Nullability::Nullable);
    assert_eq!(fields[7].logical_type(), LogicalType::Bool);
    assert_eq!(fields[7].nullability(), Nullability::NonNull);

    let StageKind::Project(projections) = analysis.pipeline().stages()[0].kind() else {
        panic!("expected project stage");
    };
    assert!(matches!(
        projections[5].expression().kind(),
        ExpressionKind::Literal(Literal::Int64(7))
    ));
    assert!(matches!(
        projections[6].expression().kind(),
        ExpressionKind::Literal(Literal::Null(LogicalType::Int64))
    ));
    assert!(matches!(
        projections[7].expression().kind(),
        ExpressionKind::NullPredicate {
            predicate: NullPredicate::IsNull,
            ..
        }
    ));
}

#[test]
fn aggregates_expose_their_exact_result_types_and_nullability() {
    let analysis = analyze_typed(
        "source logs | summarize rows = count(), present = count(active), signed = sum(status), unsigned = sum(requests), mean = avg(ratio), lowest = min(service), latest = max(@event_time) by active",
    )
    .expect("aggregate signatures are valid");

    let actual = analysis
        .pipeline()
        .output_relation()
        .fields()
        .iter()
        .map(|field| (field.logical_type(), field.nullability()))
        .collect::<Vec<_>>();
    assert_eq!(
        actual,
        [
            (LogicalType::Bool, Nullability::Nullable),
            (LogicalType::Int64, Nullability::NonNull),
            (LogicalType::Int64, Nullability::NonNull),
            (LogicalType::Int64, Nullability::Nullable),
            (LogicalType::UInt64, Nullability::Nullable),
            (LogicalType::Float64, Nullability::Nullable),
            (LogicalType::Utf8, Nullability::Nullable),
            (LogicalType::Datetime, Nullability::Nullable),
        ]
    );
}

#[test]
fn diagnostic_registry_classifies_semantic_failures() {
    let cases = [
        (
            "source absent",
            bounded_time_context(),
            DiagnosticCode::SourceNotFound,
            "absent",
        ),
        (
            "source logs | project @unknown",
            bounded_time_context(),
            DiagnosticCode::FieldNotFound,
            "@unknown",
        ),
        (
            "source logs start_inclusive=datetime(\"not-a-time\")",
            bounded_time_context(),
            DiagnosticCode::TimeExpressionInvalid,
            "datetime(\"not-a-time\")",
        ),
        (
            "source logs",
            QueryTimeContext::new(UtcInstant::unix_epoch(), None, None),
            DiagnosticCode::TimeBoundUnresolved,
            "source logs",
        ),
        (
            "source logs start_inclusive=now end_exclusive=now",
            bounded_time_context(),
            DiagnosticCode::TimeRangeInvalid,
            "source logs start_inclusive=now end_exclusive=now",
        ),
        (
            "source logs | project value = 9223372036854775808",
            bounded_time_context(),
            DiagnosticCode::LiteralInvalid,
            "9223372036854775808",
        ),
        (
            "source logs | summarize total = sum()",
            bounded_time_context(),
            DiagnosticCode::FunctionArityInvalid,
            "sum()",
        ),
        (
            "source logs | summarize total = sum(active)",
            bounded_time_context(),
            DiagnosticCode::FunctionArgumentTypeInvalid,
            "sum(active)",
        ),
        (
            "source logs | project value = cast(active as int32)",
            bounded_time_context(),
            DiagnosticCode::CastInvalid,
            "cast(active as int32)",
        ),
        (
            "source logs | project active + 1",
            bounded_time_context(),
            DiagnosticCode::ProjectionAliasRequired,
            "active + 1",
        ),
        (
            "source logs | project (active)",
            bounded_time_context(),
            DiagnosticCode::ProjectionAliasRequired,
            "(active)",
        ),
        (
            "source logs | summarize count()",
            bounded_time_context(),
            DiagnosticCode::AggregateAliasRequired,
            "count()",
        ),
        (
            "source logs | project status, status",
            bounded_time_context(),
            DiagnosticCode::DuplicateOutputField,
            "status",
        ),
        (
            "source logs | summarize events = count() | filter active",
            bounded_time_context(),
            DiagnosticCode::StageOrderInvalid,
            "filter active",
        ),
        (
            "source logs | take -1",
            bounded_time_context(),
            DiagnosticCode::TakeInvalid,
            "-1",
        ),
        (
            "source logs | filter bytes > 1000.5",
            bounded_time_context(),
            DiagnosticCode::TypeMismatch,
            "bytes > 1000.5",
        ),
        (
            "source logs | project value = int32(2147483647) + int32(1)",
            bounded_time_context(),
            DiagnosticCode::ConstantEvaluationFailed,
            "int32(2147483647) + int32(1)",
        ),
    ];

    for (query, time_context, expected_code, expected_text) in cases {
        let source = typed_catalog_source();
        let error = analyze(query, &CatalogSnapshot::new(&source), &time_context)
            .expect_err("query must fail semantic analysis");
        assert_eq!(error.code(), AnalyzeErrorCode::Semantic, "{query}");
        assert_eq!(error.diagnostics().len(), 1, "{query}");
        let diagnostic = &error.diagnostics()[0];
        assert_eq!(diagnostic.code(), expected_code, "{query}");
        assert_eq!(diagnostic.severity(), DiagnosticSeverity::Error, "{query}");
        let span = diagnostic.span().expect("semantic diagnostic has a span");
        assert_eq!(&query[span.start()..span.end()], expected_text, "{query}");
    }
}

#[test]
fn syntax_errors_and_successful_warnings_use_stable_ordering() {
    let syntax = analyze_typed("source logs | filter )").expect_err("query must fail parsing");
    assert_eq!(syntax.code(), AnalyzeErrorCode::Syntax);
    assert_eq!(syntax.diagnostics()[0].code(), DiagnosticCode::SyntaxError);

    let query = "source logs | filter service == \"ошибка\" | project later, earlier";
    let analysis = analyze_typed(query).expect("implicit remainder fields are valid");
    let spans = analysis
        .diagnostics()
        .iter()
        .map(|diagnostic| diagnostic.span().expect("warning has a span"))
        .collect::<Vec<_>>();
    assert_eq!(spans.len(), 2);
    assert!(spans[0].start() < spans[1].start());
    assert_eq!(&query[spans[0].start()..spans[0].end()], "later");
    assert_eq!(&query[spans[1].start()..spans[1].end()], "earlier");
}

#[test]
fn errors_are_shown_with_their_lines_and_characters() {
    let error = analyze_typed("source logs\n| filter \"й\" == @missing").expect_err("must fail");
    assert_eq!(
        error.to_string(),
        "QUERY_SEMANTIC_ERROR\nERROR QUERY_FIELD_NOT_FOUND: field \"@missing\" was not found in the current relation at 2:17"
    );
    let error = analyze_typed("source logs |").expect_err("must fail");
    assert_eq!(
        error.to_string(),
        "QUERY_SYNTAX_ERROR\nERROR QUERY_SYNTAX_ERROR: parse error at 0..13: found end of input at 1:1"
    );
    let position = source_position("aй\nb", 4).expect("a character begins there");
    assert_eq!((position.line(), position.column()), (2, 1));
    assert!(source_position("aй\nb", 2).is_none());
    assert!(source_position("ab", 3).is_none());
}

#[test]
fn parsed_queries_can_be_analyzed_again() {
    let query = "source logs | take 5";
    let parsed = parse(query).expect("query is valid");
    let source = catalog_source();
    let analysis = analyze_parsed(
        query,
        &parsed,
        &CatalogSnapshot::new(&source),
        &bounded_time_context(),
        &FloatFacts::new(),
    )
    .map(finished)
    .expect("query is valid");
    assert!(matches!(
        analysis.pipeline().stages()[0].kind(),
        StageKind::Take(5)
    ));
    let error = analyze_parsed(
        query,
        &parsed,
        &CatalogSnapshot::empty(),
        &bounded_time_context(),
        &FloatFacts::new(),
    )
    .expect_err("the catalog is empty");
    assert_eq!(error.diagnostics()[0].code(), DiagnosticCode::SourceNotFound);
}

#[test]
fn relative_bounds_step_from_the_reference_time() {
    let at = |query: &str, reference: i64| {
        let source = catalog_source();
        let context = QueryTimeContext::new(
            UtcInstant::from_unix_milliseconds(reference),
            None,
            Some(UtcInstant::from_unix_milliseconds(i64::MAX)),
        );
        analyze(query, &CatalogSnapshot::new(&source), &context).map(|analysis| {
            analysis
                .pipeline()
                .time_range()
                .start_inclusive()
                .unix_milliseconds()
        })
    };
    assert_eq!(at("source logs start_inclusive=now", 5).expect("valid"), 5);
    assert_eq!(
        at("source logs start_inclusive=@d", -1).expect("valid"),
        -86_400_000
    );
    assert_eq!(
        at("source logs start_inclusive=+2h@m", 90_061).expect("valid"),
        7_260_000
    );
    let error = at("source logs start_inclusive=-18446744073709551615d", 0).expect_err("too far");
    assert_eq!(
        error.diagnostics()[0].code(),
        DiagnosticCode::TimeExpressionInvalid
    );
}

#[test]
fn contextual_literals_take_the_type_of_the_other_side() {
    for (query, code) in [
        ("source logs | filter requests == -1", DiagnosticCode::TypeMismatch),
        ("source logs | filter status == 2147483648", DiagnosticCode::LiteralInvalid),
        ("source logs | filter ratio == 16777217", DiagnosticCode::LiteralInvalid),
        ("source logs | filter service == 1", DiagnosticCode::TypeMismatch),
        ("source logs | filter null == null", DiagnosticCode::TypeMismatch),
        ("source logs | filter not status", DiagnosticCode::TypeMismatch),
        ("source logs | filter -requests == requests", DiagnosticCode::TypeMismatch),
        ("source logs | filter status and active", DiagnosticCode::TypeMismatch),
        ("source logs | filter service + 1 == 2", DiagnosticCode::TypeMismatch),
        ("source logs | filter active > active", DiagnosticCode::TypeMismatch),
        ("source logs | filter uint32(-0) == requests", DiagnosticCode::LiteralInvalid),
        ("source logs | filter -(int64(-9223372036854775808)) == bytes", DiagnosticCode::ConstantEvaluationFailed),
        ("source logs | filter float32(1e39) == ratio", DiagnosticCode::LiteralInvalid),
        ("source logs | filter eid(\"xyz\") == @event_id", DiagnosticCode::LiteralInvalid),
        ("source logs | filter datetime(\"2026-01-01T00:00:00.0001Z\") == @event_time", DiagnosticCode::LiteralInvalid),
        ("source logs | filter 1 / 0 == 1", DiagnosticCode::ConstantEvaluationFailed),
    ] {
        let error = analyze_typed(query).expect_err(query);
        assert_eq!(error.diagnostics()[0].code(), code, "{query}");
    }
    for query in [
        "source logs | filter requests == 4294967295",
        "source logs | filter ratio == 16777216",
        "source logs | filter status == -2147483648",
        "source logs | filter null == service",
        "source logs | filter cast(null as utf8) == service",
        "source logs | filter \"a\" < service",
    ] {
        assert!(analyze_typed(query).is_ok(), "{query}");
    }
}

#[test]
fn remainder_access_needs_the_remainder() {
    let error = analyze_typed("source logs | project active | filter rest_exists(\"a\")")
        .expect_err("the remainder is gone");
    assert!(matches!(
        semantic_errors(error).as_slice(),
        [SemanticError::RemainderNotFound { .. }]
    ));
}

#[test]
fn constants_are_evaluated() {
    let folded = |query: &str| {
        let analysis = analyze_typed(query).expect("query is valid");
        let (_, _, _, mut stages) = analysis.into_pipeline().into_parts();
        let (kind, _) = stages.remove(0).into_parts();
        match kind {
            StageKind::Filter(expression) => match expression.into_parts().0 {
                ExpressionKind::Literal(literal) => literal,
                other => panic!("expected a constant, got {other:?}"),
            },
            other => panic!("expected filter stage, got {other:?}"),
        }
    };
    assert_eq!(
        folded("source logs | filter -7 / 2 == -3"),
        Literal::Boolean(true)
    );
    assert_eq!(
        folded("source logs | filter \"a\" < \"ab\""),
        Literal::Boolean(true)
    );
    assert_eq!(
        folded("source logs | filter false and cast(null as bool)"),
        Literal::Boolean(false)
    );
    assert_eq!(
        folded("source logs | filter true and cast(null as bool)"),
        Literal::Null(LogicalType::Bool)
    );
    assert_eq!(
        folded("source logs | filter not (1 > 2)"),
        Literal::Boolean(true)
    );
    assert_eq!(
        folded("source logs | filter 1 != null"),
        Literal::Boolean(true)
    );
    assert_eq!(
        folded(
            "source logs | filter eid(\"00000000000000000000000000000001\") < eid(\"00000000000000000000000000000100\")"
        ),
        Literal::Boolean(true)
    );
    assert_eq!(
        folded(
            "source logs | filter datetime(\"1970-01-01T00:00:00Z\") >= datetime(\"1970-01-01T00:00:01Z\")"
        ),
        Literal::Boolean(false)
    );
}

fn numeral(text: &str, single: bool) -> FloatConstant {
    FloatConstant {
        negative: false,
        magnitude: FloatMagnitude::Decimal(text.to_owned()),
        single,
    }
}

#[test]
fn folding_goes_by_what_is_known_of_floating_point_numbers() {
    let double = |text: &str| Literal::Float64(numeral(text, false));
    let fold = |operator, left: &str, right: &str, facts: &FloatFacts| {
        fold_binary(operator, &double(left), &double(right), LogicalType::Float64, facts)
    };
    let zero = || FloatConstant {
        negative: false,
        magnitude: FloatMagnitude::Integer(0),
        single: false,
    };
    let mut facts = FloatFacts::new();
    assert_eq!(
        fold(BinaryOperator::Add, "0.5", "0.25", &facts),
        Err(FoldFault::Unknown(FloatQuestion::Compute {
            operator: BinaryOperator::Add,
            left: numeral("0.5", false),
            right: numeral("0.25", false),
            single: false,
        }))
    );
    assert_eq!(
        fold(BinaryOperator::Divide, "0.5", "0.0", &facts),
        Err(FoldFault::Unknown(FloatQuestion::Compare {
            left: numeral("0.0", false),
            right: zero(),
        }))
    );
    assert_eq!(
        fold(BinaryOperator::LessThan, "0.5", "0.25", &facts),
        Err(FoldFault::Unknown(FloatQuestion::Compare {
            left: numeral("0.5", false),
            right: numeral("0.25", false),
        }))
    );
    facts.comparisons.push(FloatComparison {
        left: numeral("0.0", false),
        right: zero(),
        order: FloatOrder::Equal,
    });
    facts.comparisons.push(FloatComparison {
        left: numeral("0.5", false),
        right: numeral("0.25", false),
        order: FloatOrder::Greater,
    });
    facts.computations.push(FloatComputation {
        operator: BinaryOperator::Multiply,
        left: numeral("0.5", false),
        right: numeral("0.25", false),
        single: false,
        result: None,
    });
    facts.computations.push(FloatComputation {
        operator: BinaryOperator::Subtract,
        left: numeral("0.5", false),
        right: numeral("0.25", false),
        single: false,
        result: Some(FloatNumeral { negative: true, text: "7".to_owned() }),
    });
    assert_eq!(
        fold(BinaryOperator::Divide, "0.5", "0.0", &facts),
        Err(FoldFault::Failed(Reason::FloatDividedByZero))
    );
    assert_eq!(
        fold(BinaryOperator::Multiply, "0.5", "0.25", &facts),
        Err(FoldFault::Failed(Reason::FloatResultNotFinite))
    );
    assert_eq!(
        fold(BinaryOperator::Subtract, "0.5", "0.25", &facts),
        Ok(Some(Literal::Float64(FloatConstant {
            negative: true,
            ..numeral("7", false)
        })))
    );
    for (operator, expected) in [
        (BinaryOperator::Equal, false),
        (BinaryOperator::NotEqual, true),
        (BinaryOperator::GreaterThan, true),
        (BinaryOperator::GreaterThanOrEqual, true),
        (BinaryOperator::LessThan, false),
        (BinaryOperator::LessThanOrEqual, false),
    ] {
        assert_eq!(fold(operator, "0.5", "0.25", &facts), Ok(Some(Literal::Boolean(expected))));
    }
    assert!(matches!(
        fold_binary(
            BinaryOperator::Subtract,
            &Literal::Float32(numeral("0.5", true)),
            &Literal::Float32(numeral("0.25", true)),
            LogicalType::Float32,
            &facts,
        ),
        Err(FoldFault::Unknown(FloatQuestion::Compute { single: true, .. }))
    ));
    match fold_unary(UnaryOperator::Negate, &double("0.5")) {
        Ok(Some(Literal::Float64(constant))) => assert!(constant.negative),
        other => panic!("expected a negated constant, got {other:?}"),
    }
}

#[test]
fn floating_point_constants_are_evaluated() {
    let filtered = |query: &str| {
        let analysis = analyze_typed(query).expect("query is valid");
        let (_, _, _, mut stages) = analysis.into_pipeline().into_parts();
        match stages.remove(0).into_parts().0 {
            StageKind::Filter(expression) => expression.into_parts().0,
            other => panic!("expected filter stage, got {other:?}"),
        }
    };
    for (query, expected) in [
        ("source logs | filter 0.5 + 0.25 == 0.75", true),
        ("source logs | filter 0.1 + 0.2 == 0.3", false),
        ("source logs | filter 1.0 / 4.0 < 0.26", true),
        ("source logs | filter -0.0 == 0.0", true),
        ("source logs | filter (0.5 * 2.0) == null", false),
        ("source logs | filter (0.5 * 2.0) != null", true),
        ("source logs | filter float32(0.1) * float32(3) == float32(0.3)", true),
        ("source logs | filter 0.1 * 3.0 == 0.3", false),
        ("source logs | filter float32(16777216) + float32(1) == float32(16777216)", true),
        ("source logs | filter not (1e300 - 1e300 >= 1.5)", true),
    ] {
        match filtered(query) {
            ExpressionKind::Literal(literal) => {
                assert_eq!(literal, Literal::Boolean(expected), "{query}");
            }
            other => panic!("expected a constant, got {other:?}"),
        }
    }
    for (query, message, text) in [
        (
            "source logs | filter 1.5 / 0.0 == 1.0",
            "floating-point arithmetic divided by zero",
            "1.5 / 0.0",
        ),
        (
            "source logs | project value = 1e308 * 10.0",
            "floating-point arithmetic produced a non-finite result",
            "1e308 * 10.0",
        ),
        (
            "source logs | project value = float32(1e38) + float32(3e38)",
            "floating-point arithmetic produced a non-finite result",
            "float32(1e38) + float32(3e38)",
        ),
    ] {
        let error = analyze_typed(query).expect_err(query);
        let diagnostic = &error.diagnostics()[0];
        assert_eq!(diagnostic.code(), DiagnosticCode::ConstantEvaluationFailed, "{query}");
        assert_eq!(diagnostic.message(), message, "{query}");
        let span = diagnostic.span().expect("a place");
        assert_eq!(&query[span.start()..span.end()], text, "{query}");
    }
}

#[test]
fn an_answered_question_is_not_asked_again() {
    let source = typed_catalog_source();
    let query = "source logs | filter 1.5 / 0.5 - 2.5 > 0.25 and 1.5 / 0.5 == 3.0";
    let mut facts = FloatFacts::new();
    let mut asked: Vec<String> = Vec::new();
    loop {
        let step = analyze_step(
            query,
            &CatalogSnapshot::new(&source),
            &bounded_time_context(),
            &facts,
        )
        .expect("query is valid");
        match step {
            AnalysisStep::Finished(_) => break,
            AnalysisStep::Unknown(question) => {
                let shown = format!("{question:?}");
                assert!(!asked.contains(&shown), "{shown}");
                asked.push(shown);
                answer(&mut facts, question);
            }
        }
    }
    assert_eq!(asked.len(), 5);
}

#[test]
fn date_times_and_identities_are_read_exactly() {
    assert_eq!(
        parse_datetime("2025-01-01T01:00:00.007+01:00").map(|instant| instant.0),
        Ok(1_735_689_600_007)
    );
    assert!(parse_datetime("2025-01-01T00:00:00").is_err());
    assert!(accept_instant(Some((5, 1_000))).is_err());
    assert_eq!(accept_instant(Some((5, 5_000_000))).map(|instant| instant.0), Ok(5));
    assert!(accept_instant(None).is_err());
    assert_eq!(
        parse_eid("000102030405060708090a0b0c0d0e0f"),
        Ok([0, 1, 2, 3, 4, 5, 6, 7, 8, 9, 10, 11, 12, 13, 14, 15])
    );
    assert!(parse_eid("000102030405060708090A0B0C0D0E0F").is_err());
    assert!(parse_eid("00").is_err());
}

fn make_pipeline(stages: Vec<StageKind>) -> Pipeline {
    let source = catalog_source();
    let parsed = analyze_query("source logs").expect("query is valid");
    assert_eq!(parsed.source().source_id(), source.id);
    let (source, _, source_relation, _) = parsed.into_parts();
    Pipeline {
        source,
        time_range: TimeRange::new(
            UtcInstant::from_unix_milliseconds(0),
            UtcInstant::from_unix_milliseconds(1),
        )
        .expect("the range is not empty"),
        source_relation,
        stages: stages
            .into_iter()
            .map(|kind| Stage {
                kind,
                output_relation: Relation { fields: Vec::new() },
            })
            .collect(),
    }
}

fn count_field() -> elucid::language::ir::Field {
    let pipeline = analyze_query("source logs | summarize count = count()");
    assert!(pipeline.is_err());
    let pipeline = analyze_query("source logs | summarize `count` = count()").expect("valid");
    pipeline.output_relation().fields()[0].clone()
}

fn aggregate_stage() -> StageKind {
    StageKind::Aggregate {
        measures: vec![AggregateExpression {
            function: AggregateFunction::Count,
            argument: None,
            output_field: count_field(),
        }],
        group_by: vec![],
    }
}

fn sort_stage() -> StageKind {
    StageKind::Sort(vec![SortSpec {
        field: count_field(),
        order: SortOrder::Descending,
    }])
}

fn limit_stage(n: u64) -> StageKind {
    StageKind::Take(n)
}

fn filter_stage() -> StageKind {
    StageKind::Filter(Expression {
        kind: ExpressionKind::Literal(Literal::Boolean(true)),
        logical_type: LogicalType::Bool,
        nullability: Nullability::NonNull,
    })
}

#[test]
fn two_aggregates_produces_multiple_aggregates_error() {
    let pipeline = make_pipeline(vec![aggregate_stage(), aggregate_stage()]);
    let errors = validate_pipeline(&pipeline).expect_err("should fail");
    assert_eq!(errors.len(), 1);
    assert_eq!(errors[0], PipelineError::MultipleAggregates);
}

#[test]
fn single_aggregate_is_valid() {
    let pipeline = make_pipeline(vec![aggregate_stage()]);
    assert!(validate_pipeline(&pipeline).is_ok());
}

#[test]
fn zero_aggregates_is_valid() {
    let pipeline = make_pipeline(vec![filter_stage(), sort_stage()]);
    assert!(validate_pipeline(&pipeline).is_ok());
}

#[test]
fn filter_after_aggregate_produces_error() {
    let pipeline = make_pipeline(vec![aggregate_stage(), filter_stage()]);
    let errors = validate_pipeline(&pipeline).expect_err("should fail");
    assert_eq!(errors.len(), 1);
    assert_eq!(errors[0], PipelineError::AggregateAfterAggregate);
}

#[test]
fn sort_and_limit_after_aggregate_is_valid() {
    let pipeline = make_pipeline(vec![aggregate_stage(), sort_stage(), limit_stage(10)]);
    assert!(validate_pipeline(&pipeline).is_ok());
}

#[test]
fn sort_limit_then_filter_after_aggregate_produces_error() {
    let pipeline = make_pipeline(vec![
        aggregate_stage(),
        sort_stage(),
        limit_stage(10),
        filter_stage(),
    ]);
    let errors = validate_pipeline(&pipeline).expect_err("should fail");
    assert_eq!(errors.len(), 1);
    assert_eq!(errors[0], PipelineError::AggregateAfterAggregate);
}

#[test]
fn two_aggregates_reports_only_multiple_aggregates() {
    let pipeline = make_pipeline(vec![aggregate_stage(), aggregate_stage()]);
    let errors = validate_pipeline(&pipeline).expect_err("should fail");
    assert_eq!(errors.len(), 1);
    assert_eq!(errors[0], PipelineError::MultipleAggregates);
}

#[test]
fn empty_stages_is_valid() {
    let pipeline = make_pipeline(vec![]);
    assert!(validate_pipeline(&pipeline).is_ok());
}

#[test]
fn filter_sort_without_aggregate_is_valid() {
    let pipeline = make_pipeline(vec![filter_stage(), sort_stage()]);
    assert!(validate_pipeline(&pipeline).is_ok());
}

#[test]
fn aggregate_with_only_sort_after_is_valid() {
    let pipeline = make_pipeline(vec![aggregate_stage(), sort_stage()]);
    assert!(validate_pipeline(&pipeline).is_ok());
}

#[test]
fn aggregate_with_only_limit_after_is_valid() {
    let pipeline = make_pipeline(vec![aggregate_stage(), limit_stage(5)]);
    assert!(validate_pipeline(&pipeline).is_ok());
}

#[test]
fn codes_are_stable_texts() {
    assert_eq!(AnalyzeErrorCode::Syntax.as_str(), "QUERY_SYNTAX_ERROR");
    assert_eq!(DiagnosticSeverity::Warning.as_str(), "WARNING");
    assert_eq!(
        DiagnosticCode::ConstantEvaluationFailed.as_str(),
        "QUERY_CONSTANT_EVALUATION_FAILED"
    );
    assert_eq!(AggregateFunction::Average.as_str(), "avg");
    assert_eq!(SortOrder::default().to_string(), "asc");
}
