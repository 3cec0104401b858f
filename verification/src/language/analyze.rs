//! Analysis of queries: from a text to a typed pipeline.

use vstd::prelude::*;
use vstd::string::*;

use crate::catalog;
use crate::language::ast::{Query, QueryView};
use crate::language::error::{
    all_located, diagnostic_views, finish_diagnostics, in_order, Analysis, AnalysisStep,
    AnalyzeError, AnalyzeErrorCode, Diagnostic, DiagnosticCode, DiagnosticView, SemanticError,
};
use crate::language::floats::FloatFacts;
use crate::language::parser;
use crate::language::parser::{parses, ParserError};
use crate::language::pipeline::{analyzed, convert_query, CatalogSnapshot};
use crate::language::time::QueryTimeContext;

verus! {

/// Diagnostics with the lines and characters of their places, in order.
pub open spec fn finished(diagnostics: Seq<DiagnosticView>, query: Seq<char>) -> Seq<
    DiagnosticView,
> {
    in_order(all_located(diagnostics, query))
}

/// Whether an error is the one for a text that is no query.
pub open spec fn is_syntax_error(error: AnalyzeError, query: Seq<char>, found: ParserError) -> bool {
    &&& error.code == AnalyzeErrorCode::Syntax
    &&& error.semantic is None
    &&& diagnostic_views(error.diagnostics@) == finished(
        seq![DiagnosticView::error(DiagnosticCode::SyntaxError, found@.message(), found.span)],
        query,
    )
}

/// Parses a query. An error tells where the text stops to be one.
pub fn parse(query: &str) -> (r: Result<Query, AnalyzeError>)
    ensures
        match r {
            Ok(parsed) => parses(query.spec_bytes(), Ok(parsed)),
            Err(e) => exists|found: ParserError| #[trigger]
                parses(query.spec_bytes(), Err(found)) && is_syntax_error(e, query@, found),
        },
{
    match parser::parse(query) {
        Ok(parsed) => Ok(parsed),
        Err(found) => {
            let AnalyzeError { code, semantic, diagnostics } = AnalyzeError::syntax(
                found.to_string(),
                found.span,
            );
            let diagnostics: Vec<Diagnostic> = finish_diagnostics(diagnostics, query);
            let error: AnalyzeError = AnalyzeError { code, semantic, diagnostics };
            assert(is_syntax_error(error, query@, found));
            Err(error)
        },
    }
}

/// Whether this is how far the analysis of a parsed query comes, by what is known of its
/// floating-point constants.
pub open spec fn analyzes(
    query: Seq<char>,
    parsed: QueryView,
    source: Option<catalog::Source>,
    context: QueryTimeContext,
    facts: FloatFacts,
    r: Result<AnalysisStep, AnalyzeError>,
) -> bool {
    match analyzed(parsed, source, context, facts) {
        Ok((pipeline, warnings)) => {
            &&& r matches Ok(AnalysisStep::Finished(analysis))
            &&& analysis.pipeline@ == pipeline
            &&& diagnostic_views(analysis.diagnostics@) == finished(warnings, query)
        },
        Err(SemanticError::FloatUnknown { question, .. }) => r == Ok::<AnalysisStep, AnalyzeError>(
            AnalysisStep::Unknown(question),
        ),
        Err(found) => {
            &&& r matches Err(e)
            &&& e.code == AnalyzeErrorCode::Semantic
            &&& e.semantic == Some(found)
            &&& diagnostic_views(e.diagnostics@) == finished(
                seq![DiagnosticView::error(found.kind(), found.text(), found.place())],
                query,
            )
        },
    }
}

/// Analyzes a parsed query against a snapshot of the catalog, by what is known of its
/// floating-point constants.
pub fn analyze_parsed(
    query: &str,
    parsed: &Query,
    catalog: &CatalogSnapshot<'_>,
    time_context: &QueryTimeContext,
    facts: &FloatFacts,
) -> (r: Result<AnalysisStep, AnalyzeError>)
    ensures
        analyzes(query@, parsed@, catalog.held(), *time_context, *facts, r),
{
    match convert_query(parsed, catalog, time_context, facts) {
        Ok((pipeline, warnings)) => {
            let diagnostics: Vec<Diagnostic> = finish_diagnostics(warnings, query);
            Ok(AnalysisStep::Finished(Analysis { pipeline, diagnostics }))
        },
        Err(SemanticError::FloatUnknown { question, .. }) => Ok(AnalysisStep::Unknown(question)),
        Err(found) => {
            let AnalyzeError { code, semantic, diagnostics } = AnalyzeError::semantic(found);
            let diagnostics: Vec<Diagnostic> = finish_diagnostics(diagnostics, query);
            Err(AnalyzeError { code, semantic, diagnostics })
        },
    }
}

/// Parses and analyzes a query against a snapshot of the catalog, by what is known of its
/// floating-point constants. If more must be known, it says what: the caller adds that to the facts
/// and analyzes the query again.
pub fn analyze(
    query: &str,
    catalog: &CatalogSnapshot<'_>,
    time_context: &QueryTimeContext,
    facts: &FloatFacts,
) -> (r: Result<AnalysisStep, AnalyzeError>)
    ensures
        ({
            ||| exists|parsed: Query| #[trigger]
                parses(query.spec_bytes(), Ok(parsed)) && analyzes(
                    query@,
                    parsed@,
                    catalog.held(),
                    *time_context,
                    *facts,
                    r,
                )
            ||| exists|found: ParserError| #[trigger]
                parses(query.spec_bytes(), Err(found)) && r is Err && is_syntax_error(
                    r->Err_0,
                    query@,
                    found,
                )
        }),
{
    match parse(query) {
        Err(e) => Err(e),
        Ok(parsed) => analyze_parsed(query, &parsed, catalog, time_context, facts),
    }
}

} // verus!
