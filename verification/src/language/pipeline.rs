//! The typed pipeline that a query becomes.

use vstd::prelude::*;

use crate::catalog;
use crate::catalog::{schema_place, FieldRole, Schema};
use crate::language::ast;
use crate::language::ast::Query;
use crate::language::command::{
    convert_stage, output_names_are_unique, stage_warnings, staged, staging_asks_only_for_unknowns,
    unique_names, warn_of_stage,
};
use crate::language::error::{diagnostic_views, Diagnostic, DiagnosticView, SemanticError};
use crate::language::expression::asks_only_for_unknowns;
use crate::language::floats::FloatFacts;
use crate::language::ir::{
    stage_views, Field, FieldOrigin, Pipeline, PipelineView, Relation, Source, Stage, StageView,
    TimeRange,
};
use crate::language::time::{range_of_source, resolve_range, QueryTimeContext};

verus! {

/// The part of the catalog that a query is analyzed against.
#[derive(Clone, Copy, Debug)]
pub struct CatalogSnapshot<'catalog> {
    pub source: Option<&'catalog catalog::Source>,
}

/// The source with this name, if there is one and it has the schema that is active.
pub open spec fn source_named(source: Option<catalog::Source>, name: Seq<char>) -> Option<
    (catalog::Source, Schema),
> {
    match source {
        Some(source) if source.name@ == name => match schema_place(
            source.schemas@,
            source.active_schema_id,
            0,
        ) {
            Some(place) => Some((source, source.schemas@[place])),
            None => None,
        },
        _ => None,
    }
}

impl<'catalog> CatalogSnapshot<'catalog> {
    /// The source that the snapshot holds.
    pub open spec fn held(self) -> Option<catalog::Source> {
        match self.source {
            Some(source) => Some(*source),
            None => None,
        }
    }

    pub fn new(source: &'catalog catalog::Source) -> (r: Self)
        ensures
            r.source == Some(source),
    {
        CatalogSnapshot { source: Some(source) }
    }

    pub fn empty() -> (r: Self)
        ensures
            r.source is None,
    {
        CatalogSnapshot { source: None }
    }

    /// The source with this name.
    pub fn source(&self, name: &str) -> (r: Option<&'catalog catalog::Source>)
        ensures
            match self.source {
                Some(source) if source.name@ == name@ => r == Some(source),
                _ => r is None,
            },
    {
        match self.source {
            Some(source) => if source.name == name.to_owned() {
                Some(source)
            } else {
                None
            },
            None => None,
        }
    }
}

/// The field of a relation that a stored field is.
pub open spec fn relation_field(field: catalog::Field) -> Field {
    Field {
        name: field.name,
        logical_type: field.logical_type,
        nullability: field.nullability,
        origin: if field.role == FieldRole::Data {
            FieldOrigin::Schema { field_id: field.id }
        } else {
            FieldOrigin::System { field_id: field.id }
        },
    }
}

/// The relation that a schema gives.
pub open spec fn schema_relation(schema: Schema) -> Seq<Field> {
    Seq::new(schema.fields@.len(), |i: int| relation_field(schema.fields@[i]))
}

/// Makes the relation that a schema gives.
pub fn relation_from_schema(schema: &Schema) -> (r: Relation)
    ensures
        r.fields@ == schema_relation(*schema),
{
    let mut fields: Vec<Field> = Vec::new();
    let mut index: usize = 0;
    while index < schema.fields.len()
        invariant
            index <= schema.fields@.len(),
            fields@ == schema_relation(*schema).subrange(0, index as int),
        decreases schema.fields@.len() - index,
    {
        let field: &catalog::Field = &schema.fields[index];
        let origin: FieldOrigin = if field.role == FieldRole::Data {
            FieldOrigin::Schema { field_id: field.id }
        } else {
            FieldOrigin::System { field_id: field.id }
        };
        fields.push(
            Field {
                name: field.name.clone(),
                logical_type: field.logical_type,
                nullability: field.nullability,
                origin,
            },
        );
        index = index + 1;
        assert(fields@ =~= schema_relation(*schema).subrange(0, index as int));
    }
    assert(fields@ =~= schema_relation(*schema));
    Relation { fields }
}

/// Whether a stage may follow a summary.
pub open spec fn follows_summary(stage: ast::StageView) -> bool {
    stage.kind is Sort || stage.kind is Take
}

/// The stages from `at` on, behind those that were made. Each sees the relation of the one before
/// it.
pub open spec fn stages_made(
    stages: Seq<ast::StageView>,
    at: int,
    fields: Seq<Field>,
    summarized: bool,
    made: Seq<StageView>,
    facts: FloatFacts,
) -> Result<Seq<StageView>, SemanticError>
    decreases stages.len() - at,
{
    if !(0 <= at < stages.len()) {
        Ok(made)
    } else if summarized && !follows_summary(stages[at]) {
        Err(SemanticError::StageOrderInvalid { span: stages[at].span })
    } else {
        match staged(stages[at], fields, facts) {
            Err(e) => Err(e),
            Ok(stage) => stages_made(
                stages,
                at + 1,
                stage.output,
                summarized || stages[at].kind is Summarize,
                made.push(stage),
                facts,
            ),
        }
    }
}

/// The warnings for the stages from `at` on, behind those that were found.
pub open spec fn warnings_made(
    stages: Seq<ast::StageView>,
    at: int,
    fields: Seq<Field>,
    found: Seq<DiagnosticView>,
    facts: FloatFacts,
) -> Seq<DiagnosticView>
    decreases stages.len() - at,
{
    if !(0 <= at < stages.len()) {
        found
    } else {
        match staged(stages[at], fields, facts) {
            Err(_) => found,
            Ok(stage) => warnings_made(
                stages,
                at + 1,
                stage.output,
                found + stage_warnings(stages[at], fields),
                facts,
            ),
        }
    }
}

/// The typed pipeline that a query is, and the warnings for it.
pub open spec fn analyzed(
    query: ast::QueryView,
    source: Option<catalog::Source>,
    context: QueryTimeContext,
    facts: FloatFacts,
) -> Result<(PipelineView, Seq<DiagnosticView>), SemanticError> {
    let name = query.source.name;
    match source_named(source, name.value@) {
        None => Err(SemanticError::SourceNotFound { name: name.value, span: name.span }),
        Some((source, schema)) => match range_of_source(query.source, context) {
            Err(e) => Err(e),
            Ok((start_inclusive, end_exclusive)) => {
                let relation = schema_relation(schema);
                match stages_made(query.stages, 0, relation, false, Seq::empty(), facts) {
                    Err(e) => Err(e),
                    Ok(stages) => Ok(
                        (
                            PipelineView {
                                source: Source {
                                    source_id: source.id,
                                    name: source.name,
                                    active_schema_id: source.active_schema_id,
                                },
                                start_inclusive,
                                end_exclusive,
                                relation,
                                stages,
                            },
                            warnings_made(query.stages, 0, relation, Seq::empty(), facts),
                        ),
                    ),
                }
            },
        },
    }
}

fn may_follow_summary(stage: &ast::Stage) -> (r: bool)
    ensures
        r == follows_summary(stage@),
{
    matches!(stage.kind, ast::StageKind::Sort(_) | ast::StageKind::Take(_))
}

/// Makes the typed stages of a query, with the warnings for them.
fn convert_stages(
    stages: &Vec<ast::Stage>,
    source_relation: &Relation,
    facts: &FloatFacts,
) -> (r: Result<(Vec<Stage>, Vec<Diagnostic>), SemanticError>)
    ensures
        ({
            let views = ast::stage_views(stages@);
            let fields = source_relation.fields@;
            match r {
                Ok((made, warnings)) => {
                    &&& stages_made(views, 0, fields, false, Seq::empty(), *facts) == Ok::<
                        Seq<StageView>,
                        SemanticError,
                    >(stage_views(made@))
                    &&& diagnostic_views(warnings@) == warnings_made(
                        views,
                        0,
                        fields,
                        Seq::empty(),
                        *facts,
                    )
                },
                Err(e) => stages_made(views, 0, fields, false, Seq::empty(), *facts) == Err::<
                    Seq<StageView>,
                    SemanticError,
                >(e),
            }
        }),
{
    let ghost views = ast::stage_views(stages@);
    let ghost fields = source_relation.fields@;
    let mut relation: Relation = source_relation.clone();
    let mut summarized: bool = false;
    let mut made: Vec<Stage> = Vec::new();
    let mut warnings: Vec<Diagnostic> = Vec::new();
    let mut index: usize = 0;
    assert(stage_views(made@) =~= Seq::empty());
    assert(diagnostic_views(warnings@) =~= Seq::empty());
    while index < stages.len()
        invariant
            index <= stages@.len(),
            views == ast::stage_views(stages@),
            fields == source_relation.fields@,
            stages_made(views, 0, fields, false, Seq::empty(), *facts) == stages_made(
                views,
                index as int,
                relation.fields@,
                summarized,
                stage_views(made@),
                *facts,
            ),
            warnings_made(views, 0, fields, Seq::empty(), *facts) == warnings_made(
                views,
                index as int,
                relation.fields@,
                diagnostic_views(warnings@),
                *facts,
            ),
        decreases stages@.len() - index,
    {
        let stage: &ast::Stage = &stages[index];
        assert(views[index as int] == stage@);
        if summarized && !may_follow_summary(stage) {
            return Err(SemanticError::StageOrderInvalid { span: stage.span });
        }
        let converted: Stage = match convert_stage(stage, &relation, facts) {
            Err(e) => {
                return Err(e);
            },
            Ok(converted) => converted,
        };
        warn_of_stage(stage, &relation, &mut warnings);
        relation = converted.output_relation.clone();
        if let ast::StageKind::Summarize { .. } = &stage.kind {
            summarized = true;
        }
        let ghost before = stage_views(made@);
        let ghost view = converted@;
        made.push(converted);
        assert(stage_views(made@) =~= before.push(view));
        index = index + 1;
    }
    Ok((made, warnings))
}

/// Makes the typed pipeline of a query, with the warnings for it.
pub fn convert_query(
    query: &Query,
    catalog: &CatalogSnapshot<'_>,
    context: &QueryTimeContext,
    facts: &FloatFacts,
) -> (r: Result<(Pipeline, Vec<Diagnostic>), SemanticError>)
    ensures
        match r {
            Ok((pipeline, warnings)) => analyzed(query@, catalog.held(), *context, *facts) == Ok::<
                (PipelineView, Seq<DiagnosticView>),
                SemanticError,
            >((pipeline@, diagnostic_views(warnings@))),
            Err(e) => analyzed(query@, catalog.held(), *context, *facts) == Err::<
                (PipelineView, Seq<DiagnosticView>),
                SemanticError,
            >(e),
        },
{
    let name: &ast::Identifier = &query.source.name;
    let source: &catalog::Source = match catalog.source(name.value.as_str()) {
        None => {
            return Err(
                SemanticError::SourceNotFound { name: name.value.clone(), span: name.span },
            );
        },
        Some(source) => source,
    };
    let schema: &Schema = match source.schema(source.active_schema_id) {
        None => {
            return Err(
                SemanticError::SourceNotFound { name: name.value.clone(), span: name.span },
            );
        },
        Some(schema) => schema,
    };
    let time_range: TimeRange = match resolve_range(&query.source, context) {
        Err(e) => {
            return Err(e);
        },
        Ok(range) => range,
    };
    let source_relation: Relation = relation_from_schema(schema);
    match convert_stages(&query.stages, &source_relation, facts) {
        Err(e) => Err(e),
        Ok((stages, warnings)) => Ok(
            (
                Pipeline {
                    source: Source {
                        source_id: source.id,
                        name: source.name.clone(),
                        active_schema_id: source.active_schema_id,
                    },
                    time_range,
                    source_relation,
                    stages,
                },
                warnings,
            ),
        ),
    }
}

/// Whether only sorts and limits follow a summary, so that there is at most one.
pub open spec fn is_ordered(stages: Seq<StageView>) -> bool {
    forall|i: int, j: int|
        0 <= i < j < stages.len() && (#[trigger] stages[i]).kind is Aggregate ==> (
        #[trigger] stages[j]).kind is Sort || stages[j].kind is Take
}

/// Whether each stage that keeps the relation that it sees gives it unchanged, and no two fields
/// of a relation have the same name.
pub open spec fn relations_chain(relation: Seq<Field>, stages: Seq<StageView>) -> bool {
    forall|i: int|
        0 <= i < stages.len() ==> {
            let seen = if i == 0 {
                relation
            } else {
                stages[i - 1].output
            };
            let stage = #[trigger] stages[i];
            &&& unique_names(stage.output)
            &&& stage.kind is Filter || stage.kind is Sort || stage.kind is Take ==> stage.output
                == seen
        }
}

proof fn lemma_stages_are_ordered(
    stages: Seq<ast::StageView>,
    at: int,
    relation: Seq<Field>,
    fields: Seq<Field>,
    summarized: bool,
    made: Seq<StageView>,
    facts: FloatFacts,
)
    requires
        is_ordered(made),
        relations_chain(relation, made),
        unique_names(fields),
        fields == if made.len() == 0 {
            relation
        } else {
            made.last().output
        },
        summarized <==> exists|i: int| 0 <= i < made.len() && (#[trigger] made[i]).kind is Aggregate,
    ensures
        stages_made(stages, at, fields, summarized, made, facts) matches Ok(all) ==> is_ordered(all)
            && relations_chain(relation, all),
    decreases stages.len() - at,
{
    if 0 <= at < stages.len() && !(summarized && !follows_summary(stages[at])) {
        if let Ok(stage) = staged(stages[at], fields, facts) {
            output_names_are_unique(stages[at], fields, facts);
            let next = made.push(stage);
            let later = summarized || stages[at].kind is Summarize;
            assert forall|i: int, j: int|
                0 <= i < j < next.len() && (#[trigger] next[i]).kind is Aggregate implies (
            #[trigger] next[j]).kind is Sort || next[j].kind is Take by {
                assert(next[i] == made[i]);
                if j < made.len() {
                    assert(next[j] == made[j]);
                } else {
                    assert(made[i].kind is Aggregate);
                }
            }
            assert forall|i: int| 0 <= i < next.len() implies ({
                let seen = if i == 0 {
                    relation
                } else {
                    next[i - 1].output
                };
                let stage = #[trigger] next[i];
                &&& unique_names(stage.output)
                &&& stage.kind is Filter || stage.kind is Sort || stage.kind is Take
                    ==> stage.output == seen
            }) by {
                if i < made.len() {
                    assert(next[i] == made[i]);
                }
            }
            if summarized {
                let i = choose|i: int|
                    0 <= i < made.len() && (#[trigger] made[i]).kind is Aggregate;
                assert(next[i].kind is Aggregate);
            }
            if stages[at].kind is Summarize {
                assert(next[made.len() as int].kind is Aggregate);
            }
            assert(later <==> exists|i: int|
                0 <= i < next.len() && (#[trigger] next[i]).kind is Aggregate) by {
                if exists|i: int| 0 <= i < next.len() && (#[trigger] next[i]).kind is Aggregate {
                    let i = choose|i: int|
                        0 <= i < next.len() && (#[trigger] next[i]).kind is Aggregate;
                    if i < made.len() {
                        assert(made[i].kind is Aggregate);
                    }
                }
            }
            lemma_stages_are_ordered(stages, at + 1, relation, stage.output, later, next, facts);
        }
    }
}

/// In the pipeline of a query only sorts and limits follow a summary, each stage sees what the
/// one before it gives, the time range is not empty, and, if that holds of the schema, no two
/// fields of a relation have the same name.
pub proof fn pipelines_are_well_formed(
    query: ast::QueryView,
    source: Option<catalog::Source>,
    context: QueryTimeContext,
    facts: FloatFacts,
)
    requires
        source_named(source, query.source.name.value@) matches Some((_, schema)) ==> unique_names(
            schema_relation(schema),
        ),
    ensures
        analyzed(query, source, context, facts) matches Ok((pipeline, _)) ==> {
            &&& is_ordered(pipeline.stages)
            &&& relations_chain(pipeline.relation, pipeline.stages)
            &&& pipeline.start_inclusive.0 < pipeline.end_exclusive.0
        },
{
    if let Some((_, schema)) = source_named(source, query.source.name.value@) {
        let relation = schema_relation(schema);
        lemma_stages_are_ordered(query.stages, 0, relation, relation, false, Seq::empty(), facts);
    }
}

proof fn lemma_stages_ask_only_for_unknowns(
    stages: Seq<ast::StageView>,
    at: int,
    fields: Seq<Field>,
    summarized: bool,
    made: Seq<StageView>,
    found: Seq<DiagnosticView>,
    facts: FloatFacts,
    more: FloatFacts,
)
    requires
        more.extend(facts),
    ensures
        asks_only_for_unknowns(
            stages_made(stages, at, fields, summarized, made, facts),
            stages_made(stages, at, fields, summarized, made, more),
            facts,
        ),
        stages_made(stages, at, fields, summarized, made, facts) is Ok ==> warnings_made(
            stages,
            at,
            fields,
            found,
            more,
        ) == warnings_made(stages, at, fields, found, facts),
    decreases stages.len() - at,
{
    if 0 <= at < stages.len() && !(summarized && !follows_summary(stages[at])) {
        staging_asks_only_for_unknowns(stages[at], fields, facts, more);
        if let Ok(stage) = staged(stages[at], fields, facts) {
            lemma_stages_ask_only_for_unknowns(
                stages,
                at + 1,
                stage.output,
                summarized || stages[at].kind is Summarize,
                made.push(stage),
                found + stage_warnings(stages[at], fields),
                facts,
                more,
            );
        }
    }
}

/// The analysis of a query asks only for what is not known of its floating-point constants, and
/// once it asks for nothing, knowing more changes nothing.
pub proof fn analysis_asks_only_for_unknowns(
    query: ast::QueryView,
    source: Option<catalog::Source>,
    context: QueryTimeContext,
    facts: FloatFacts,
    more: FloatFacts,
)
    requires
        more.extend(facts),
    ensures
        asks_only_for_unknowns(
            analyzed(query, source, context, facts),
            analyzed(query, source, context, more),
            facts,
        ),
{
    if let Some((_, schema)) = source_named(source, query.source.name.value@) {
        lemma_stages_ask_only_for_unknowns(
            query.stages,
            0,
            schema_relation(schema),
            false,
            Seq::empty(),
            Seq::empty(),
            facts,
            more,
        );
    }
}

} // verus!
