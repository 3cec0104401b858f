//! What is known of the arithmetic and the order of floating-point constants. The numbers are kept
//! as the numerals from which they are rounded, so whoever analyzes a query rounds and computes.

use vstd::prelude::*;

use crate::language::ir::{BinaryOperator, FloatConstant, FloatMagnitude};

verus! {

/// How one floating-point number compares to another.
#[derive(Clone, Copy, Debug, PartialEq, Eq, Structural)]
pub enum FloatOrder {
    Less,
    Equal,
    Greater,
}

/// A finite result of floating-point arithmetic: its sign, and a numeral that rounds to its
/// magnitude.
#[derive(Debug, PartialEq, Eq)]
pub struct FloatNumeral {
    pub negative: bool,
    pub text: String,
}

/// How two constants compare.
#[derive(Debug, PartialEq, Eq)]
pub struct FloatComparison {
    pub left: FloatConstant,
    pub right: FloatConstant,
    pub order: FloatOrder,
}

/// What an operator makes of two constants, in single precision if `single`: `None` if the result
/// is not finite.
#[derive(Debug, PartialEq, Eq)]
pub struct FloatComputation {
    pub operator: BinaryOperator,
    pub left: FloatConstant,
    pub right: FloatConstant,
    pub single: bool,
    pub result: Option<FloatNumeral>,
}

/// What is known of floating-point constants.
#[derive(Debug, PartialEq, Eq)]
pub struct FloatFacts {
    pub comparisons: Vec<FloatComparison>,
    pub computations: Vec<FloatComputation>,
}

/// What must be known of floating-point constants.
#[derive(Debug, PartialEq, Eq)]
pub enum FloatQuestion {
    /// How two constants compare.
    Compare { left: FloatConstant, right: FloatConstant },
    /// What an operator makes of two constants, in single precision if `single`.
    Compute { operator: BinaryOperator, left: FloatConstant, right: FloatConstant, single: bool },
}

/// Whether two constants are rounded from the same numeral in the same way.
pub open spec fn same_float(left: FloatConstant, right: FloatConstant) -> bool {
    &&& left.negative == right.negative
    &&& left.single == right.single
    &&& match (left.magnitude, right.magnitude) {
        (FloatMagnitude::Integer(left), FloatMagnitude::Integer(right)) => left == right,
        (FloatMagnitude::Decimal(left), FloatMagnitude::Decimal(right)) => left@ == right@,
        _ => false,
    }
}

/// How two constants compare, by the first fact from `from` on that says so.
pub open spec fn order_known(
    facts: Seq<FloatComparison>,
    left: FloatConstant,
    right: FloatConstant,
    from: int,
) -> Option<FloatOrder>
    decreases facts.len() - from,
{
    if !(0 <= from < facts.len()) {
        None
    } else if same_float(facts[from].left, left) && same_float(facts[from].right, right) {
        Some(facts[from].order)
    } else {
        order_known(facts, left, right, from + 1)
    }
}

/// What an operator makes of two constants, by the first fact from `from` on that says so.
pub open spec fn result_known(
    facts: Seq<FloatComputation>,
    operator: BinaryOperator,
    left: FloatConstant,
    right: FloatConstant,
    single: bool,
    from: int,
) -> Option<Option<FloatNumeral>>
    decreases facts.len() - from,
{
    if !(0 <= from < facts.len()) {
        None
    } else if facts[from].operator == operator && facts[from].single == single && same_float(
        facts[from].left,
        left,
    ) && same_float(facts[from].right, right) {
        Some(facts[from].result)
    } else {
        result_known(facts, operator, left, right, single, from + 1)
    }
}

impl FloatFacts {
    /// Whether the facts answer a question.
    pub open spec fn answer(self, question: FloatQuestion) -> bool {
        match question {
            FloatQuestion::Compare { left, right } => order_known(
                self.comparisons@,
                left,
                right,
                0,
            ) is Some,
            FloatQuestion::Compute { operator, left, right, single } => result_known(
                self.computations@,
                operator,
                left,
                right,
                single,
                0,
            ) is Some,
        }
    }

    /// Whether these are facts that were known before, and others behind them.
    pub open spec fn extend(self, before: FloatFacts) -> bool {
        &&& before.comparisons@.len() <= self.comparisons@.len()
        &&& before.computations@.len() <= self.computations@.len()
        &&& before.comparisons@ == self.comparisons@.subrange(
            0,
            before.comparisons@.len() as int,
        )
        &&& before.computations@ == self.computations@.subrange(
            0,
            before.computations@.len() as int,
        )
    }

    /// No facts.
    pub fn new() -> (r: Self)
        ensures
            r.comparisons@.len() == 0,
            r.computations@.len() == 0,
    {
        FloatFacts { comparisons: Vec::new(), computations: Vec::new() }
    }

    /// How two constants compare, if that is known.
    pub fn order(&self, left: &FloatConstant, right: &FloatConstant) -> (r: Option<FloatOrder>)
        ensures
            r == order_known(self.comparisons@, *left, *right, 0),
    {
        let mut index: usize = 0;
        while index < self.comparisons.len()
            invariant
                index <= self.comparisons@.len(),
                order_known(self.comparisons@, *left, *right, 0) == order_known(
                    self.comparisons@,
                    *left,
                    *right,
                    index as int,
                ),
            decreases self.comparisons@.len() - index,
        {
            let fact: &FloatComparison = &self.comparisons[index];
            if floats_agree(&fact.left, left) && floats_agree(&fact.right, right) {
                return Some(fact.order);
            }
            index = index + 1;
        }
        None
    }

    /// What an operator makes of two constants, if that is known.
    pub fn result(
        &self,
        operator: BinaryOperator,
        left: &FloatConstant,
        right: &FloatConstant,
        single: bool,
    ) -> (r: Option<&Option<FloatNumeral>>)
        ensures
            match r {
                Some(result) => result_known(
                    self.computations@,
                    operator,
                    *left,
                    *right,
                    single,
                    0,
                ) == Some(*result),
                None => result_known(self.computations@, operator, *left, *right, single, 0)
                    is None,
            },
    {
        let mut index: usize = 0;
        while index < self.computations.len()
            invariant
                index <= self.computations@.len(),
                result_known(self.computations@, operator, *left, *right, single, 0)
                    == result_known(
                    self.computations@,
                    operator,
                    *left,
                    *right,
                    single,
                    index as int,
                ),
            decreases self.computations@.len() - index,
        {
            let fact: &FloatComputation = &self.computations[index];
            if fact.operator == operator && fact.single == single && floats_agree(
                &fact.left,
                left,
            ) && floats_agree(&fact.right, right) {
                return Some(&fact.result);
            }
            index = index + 1;
        }
        None
    }
}

pub(crate) proof fn lemma_order_stays_known(
    before: Seq<FloatComparison>,
    after: Seq<FloatComparison>,
    left: FloatConstant,
    right: FloatConstant,
    from: int,
)
    requires
        before.len() <= after.len(),
        before == after.subrange(0, before.len() as int),
        order_known(before, left, right, from) is Some,
    ensures
        order_known(after, left, right, from) == order_known(before, left, right, from),
    decreases before.len() - from,
{
    assert(before[from] == after[from]);
    if !(same_float(before[from].left, left) && same_float(before[from].right, right)) {
        lemma_order_stays_known(before, after, left, right, from + 1);
    }
}

pub(crate) proof fn lemma_result_stays_known(
    before: Seq<FloatComputation>,
    after: Seq<FloatComputation>,
    operator: BinaryOperator,
    left: FloatConstant,
    right: FloatConstant,
    single: bool,
    from: int,
)
    requires
        before.len() <= after.len(),
        before == after.subrange(0, before.len() as int),
        result_known(before, operator, left, right, single, from) is Some,
    ensures
        result_known(after, operator, left, right, single, from) == result_known(
            before,
            operator,
            left,
            right,
            single,
            from,
        ),
    decreases before.len() - from,
{
    assert(before[from] == after[from]);
    if !(before[from].operator == operator && before[from].single == single && same_float(
        before[from].left,
        left,
    ) && same_float(before[from].right, right)) {
        lemma_result_stays_known(before, after, operator, left, right, single, from + 1);
    }
}

fn floats_agree(left: &FloatConstant, right: &FloatConstant) -> (r: bool)
    ensures
        r == same_float(*left, *right),
{
    left.negative == right.negative && left.single == right.single && match (
        &left.magnitude,
        &right.magnitude,
    ) {
        (FloatMagnitude::Integer(left), FloatMagnitude::Integer(right)) => *left == *right,
        (FloatMagnitude::Decimal(left), FloatMagnitude::Decimal(right)) => *left == *right,
        _ => false,
    }
}

} // verus!
