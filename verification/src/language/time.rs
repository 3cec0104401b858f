//! The time range of a query.

use vstd::prelude::*;

use crate::calendar::rfc3339_instant;
use crate::language::ast::{
    optional_time, BoundView, SourceExpression, SourceView, TimeDirection, TimeExpression,
    TimeExpressionKind, TimeOperation, TimeOperationKind, TimeUnit, TimeView,
};
use crate::language::error::{Reason, SemanticError};
use crate::language::ir::{TimeRange, UtcInstant};
use crate::language::literal::{instant_of, parse_datetime};
use crate::language::span::Span;

verus! {

/// The instants that a query is analyzed with: the one that relative times count from, and the
/// bounds for a source that gives none.
#[derive(Clone, Copy, Debug, PartialEq, Eq, Structural)]
pub struct QueryTimeContext {
    pub reference_time: UtcInstant,
    pub request_start_inclusive: Option<UtcInstant>,
    pub request_end_exclusive: Option<UtcInstant>,
}

impl QueryTimeContext {
    pub fn new(
        reference_time: UtcInstant,
        request_start_inclusive: Option<UtcInstant>,
        request_end_exclusive: Option<UtcInstant>,
    ) -> (r: Self)
        ensures
            r.reference_time == reference_time,
            r.request_start_inclusive == request_start_inclusive,
            r.request_end_exclusive == request_end_exclusive,
    {
        QueryTimeContext { reference_time, request_start_inclusive, request_end_exclusive }
    }

    pub fn reference_time(self) -> (r: UtcInstant)
        ensures
            r == self.reference_time,
    {
        self.reference_time
    }

    pub fn request_start_inclusive(self) -> (r: Option<UtcInstant>)
        ensures
            r == self.request_start_inclusive,
    {
        self.request_start_inclusive
    }

    pub fn request_end_exclusive(self) -> (r: Option<UtcInstant>)
        ensures
            r == self.request_end_exclusive,
    {
        self.request_end_exclusive
    }
}

/// The milliseconds of a unit of time.
pub open spec fn unit_milliseconds(unit: TimeUnit) -> int {
    match unit {
        TimeUnit::Second => 1_000,
        TimeUnit::Minute => 60_000,
        TimeUnit::Hour => 3_600_000,
        TimeUnit::Day => 86_400_000,
    }
}

fn milliseconds_of(unit: TimeUnit) -> (r: i128)
    ensures
        r == unit_milliseconds(unit),
        1_000 <= r <= 86_400_000,
{
    match unit {
        TimeUnit::Second => 1_000,
        TimeUnit::Minute => 60_000,
        TimeUnit::Hour => 3_600_000,
        TimeUnit::Day => 86_400_000,
    }
}

/// Where a step of a relative time leads: to the last whole unit, or some units away.
pub open spec fn stepped(milliseconds: int, kind: TimeOperationKind) -> int {
    match kind {
        TimeOperationKind::Truncate(unit) => milliseconds - milliseconds % unit_milliseconds(unit),
        TimeOperationKind::Shift { direction, magnitude, unit } => {
            let distance = magnitude.0 * unit_milliseconds(unit);
            match direction {
                TimeDirection::Forward => milliseconds + distance,
                TimeDirection::Backward => milliseconds - distance,
            }
        },
    }
}

/// The instant that the steps from `at` on lead to, if every one of them can be held.
pub open spec fn steps_from(operations: Seq<TimeOperation>, at: int, milliseconds: i64) -> Option<i64>
    decreases operations.len() - at,
{
    if !(0 <= at < operations.len()) {
        Some(milliseconds)
    } else {
        let next = stepped(milliseconds as int, operations[at].kind);
        if i64::MIN <= next <= i64::MAX {
            steps_from(operations, at + 1, next as i64)
        } else {
            None
        }
    }
}

fn take_step(milliseconds: i64, kind: &TimeOperationKind) -> (r: Option<i64>)
    ensures
        ({
            let next = stepped(milliseconds as int, *kind);
            r == if i64::MIN <= next <= i64::MAX {
                Some(next as i64)
            } else {
                None
            }
        }),
{
    let next: i128 = match kind {
        TimeOperationKind::Truncate(unit) => {
            let length: i128 = milliseconds_of(*unit);
            match (milliseconds as i128).checked_rem_euclid(length) {
                Some(remainder) => milliseconds as i128 - remainder,
                None => milliseconds as i128,
            }
        },
        TimeOperationKind::Shift { direction, magnitude, unit } => {
            let length: i128 = milliseconds_of(*unit);
            let count: i128 = magnitude.0 as i128;
            assert(0 <= count * length <= 18_446_744_073_709_551_615 * 86_400_000)
                by (nonlinear_arith)
                requires
                    0 <= count <= 18_446_744_073_709_551_615,
                    1_000 <= length <= 86_400_000,
            ;
            let distance: i128 = count * length;
            match direction {
                TimeDirection::Forward => milliseconds as i128 + distance,
                TimeDirection::Backward => milliseconds as i128 - distance,
            }
        },
    };
    if -9_223_372_036_854_775_808 <= next && next <= 9_223_372_036_854_775_807 {
        Some(next as i64)
    } else {
        None
    }
}

fn take_steps(operations: &Vec<TimeOperation>, start: i64) -> (r: Option<i64>)
    ensures
        r == steps_from(operations@, 0, start),
{
    let mut milliseconds: i64 = start;
    let mut index: usize = 0;
    while index < operations.len()
        invariant
            index <= operations@.len(),
            steps_from(operations@, 0, start) == steps_from(
                operations@,
                index as int,
                milliseconds,
            ),
        decreases operations@.len() - index,
    {
        match take_step(milliseconds, &operations[index].kind) {
            None => {
                return None;
            },
            Some(next) => {
                milliseconds = next;
            },
        }
        index = index + 1;
    }
    Some(milliseconds)
}

/// The instant that a bound is.
pub open spec fn bound_instant(bound: TimeView, reference_time: UtcInstant) -> Result<
    UtcInstant,
    SemanticError,
> {
    match bound.kind {
        BoundView::Now => Ok(reference_time),
        BoundView::Datetime(value) => match instant_of(rfc3339_instant(value.value@)) {
            Ok(instant) => Ok(instant),
            Err(reason) => Err(
                SemanticError::TimeExpressionInvalid { reason, span: bound.span },
            ),
        },
        BoundView::Relative(operations) => match steps_from(operations, 0, reference_time.0) {
            Some(milliseconds) => Ok(UtcInstant(milliseconds)),
            None => Err(
                SemanticError::TimeExpressionInvalid {
                    reason: Reason::TimeOutOfRange,
                    span: bound.span,
                },
            ),
        },
    }
}

/// Finds the instant that a bound is.
pub fn resolve_bound(bound: &TimeExpression, reference_time: UtcInstant) -> (r: Result<
    UtcInstant,
    SemanticError,
>)
    ensures
        r == bound_instant(bound@, reference_time),
{
    match &bound.kind {
        TimeExpressionKind::Now => Ok(reference_time),
        TimeExpressionKind::Datetime(value) => match parse_datetime(value.value.as_str()) {
            Ok(instant) => Ok(instant),
            Err(reason) => Err(
                SemanticError::TimeExpressionInvalid { reason, span: bound.span },
            ),
        },
        TimeExpressionKind::Relative(operations) => match take_steps(
            operations,
            reference_time.0,
        ) {
            Some(milliseconds) => Ok(UtcInstant(milliseconds)),
            None => Err(
                SemanticError::TimeExpressionInvalid {
                    reason: Reason::TimeOutOfRange,
                    span: bound.span,
                },
            ),
        },
    }
}

/// The instant of a bound that the source or else the request gives.
pub open spec fn given_instant(
    bound: Option<TimeView>,
    request: Option<UtcInstant>,
    reference_time: UtcInstant,
    span: Span,
) -> Result<UtcInstant, SemanticError> {
    match (bound, request) {
        (Some(bound), _) => bound_instant(bound, reference_time),
        (None, Some(instant)) => Ok(instant),
        (None, None) => Err(SemanticError::TimeBoundUnresolved { span }),
    }
}

fn resolve_given(
    bound: &Option<TimeExpression>,
    request: Option<UtcInstant>,
    reference_time: UtcInstant,
    span: Span,
) -> (r: Result<UtcInstant, SemanticError>)
    ensures
        r == given_instant(optional_time(*bound), request, reference_time, span),
{
    match bound {
        Some(bound) => resolve_bound(bound, reference_time),
        None => match request {
            Some(instant) => Ok(instant),
            None => Err(SemanticError::TimeBoundUnresolved { span }),
        },
    }
}

/// The bounds of the time range of a source. The range is not empty.
pub open spec fn range_of_source(source: SourceView, context: QueryTimeContext) -> Result<
    (UtcInstant, UtcInstant),
    SemanticError,
> {
    let start = given_instant(
        source.start_inclusive,
        context.request_start_inclusive,
        context.reference_time,
        source.span,
    );
    let end = given_instant(
        source.end_exclusive,
        context.request_end_exclusive,
        context.reference_time,
        source.span,
    );
    match (start, end) {
        (Err(e), _) => Err(e),
        (Ok(_), Err(e)) => Err(e),
        (Ok(start), Ok(end)) => if start.0 < end.0 {
            Ok((start, end))
        } else {
            Err(SemanticError::TimeRangeInvalid { span: source.span })
        },
    }
}

/// Finds the time range of a source.
pub fn resolve_range(source: &SourceExpression, context: &QueryTimeContext) -> (r: Result<
    TimeRange,
    SemanticError,
>)
    ensures
        match r {
            Ok(range) => range_of_source(source@, *context) == Ok::<
                (UtcInstant, UtcInstant),
                SemanticError,
            >((range.spec_start(), range.spec_end())),
            Err(e) => range_of_source(source@, *context) == Err::<
                (UtcInstant, UtcInstant),
                SemanticError,
            >(e),
        },
{
    let start: UtcInstant = match resolve_given(
        &source.start_inclusive,
        context.request_start_inclusive,
        context.reference_time,
        source.span,
    ) {
        Err(e) => {
            return Err(e);
        },
        Ok(instant) => instant,
    };
    let end: UtcInstant = match resolve_given(
        &source.end_exclusive,
        context.request_end_exclusive,
        context.reference_time,
        source.span,
    ) {
        Err(e) => {
            return Err(e);
        },
        Ok(instant) => instant,
    };
    match TimeRange::new(start, end) {
        Some(range) => Ok(range),
        None => Err(SemanticError::TimeRangeInvalid { span: source.span }),
    }
}

/// Truncation leads to a whole unit that is not later and less than one unit earlier.
pub proof fn truncation_finds_the_unit(milliseconds: int, unit: TimeUnit)
    ensures
        ({
            let length = unit_milliseconds(unit);
            let truncated = stepped(milliseconds, TimeOperationKind::Truncate(unit));
            &&& truncated % length == 0
            &&& truncated <= milliseconds < truncated + length
        }),
{
    let length = unit_milliseconds(unit);
    vstd::arithmetic::div_mod::lemma_fundamental_div_mod(milliseconds, length);
    vstd::arithmetic::div_mod::lemma_mod_multiples_basic(milliseconds / length, length);
    assert(milliseconds - milliseconds % length == (milliseconds / length) * length)
        by (nonlinear_arith)
        requires
            milliseconds == length * (milliseconds / length) + milliseconds % length,
    ;
}

} // verus!
