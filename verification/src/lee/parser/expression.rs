//! Expressions: conditions joined by `AND` and `OR`, and what they say of a
//! model once a domain has compiled their conditions.

use super::condition::{Condition, ConditionView};
use super::error::CompileError;
use vstd::prelude::*;

verus! {

/// The connectives.
#[derive(Debug, Clone, Copy, PartialEq, Eq, Structural)]
pub enum CombineOperator {
    And,
    Or,
}

/// A domain of models that conditions can be held against. A value of the
/// implementing type is one compiled condition.
pub trait Filter: Sized {
    /// What the conditions speak of.
    type Model;

    /// The condition this filter was compiled from.
    open spec fn condition(&self) -> ConditionView {
        arbitrary()
    }

    /// Whether the domain can compile `cond`.
    open spec fn accepts(cond: ConditionView) -> bool {
        arbitrary()
    }

    /// Why the domain cannot compile `cond`.
    open spec fn rejection(cond: ConditionView) -> Seq<char> {
        arbitrary()
    }

    /// What `cond` says of `model`.
    open spec fn matches(cond: ConditionView, model: &Self::Model) -> bool {
        arbitrary()
    }

    fn compile(cond: Condition) -> (r: Result<Self, CompileError>)
        ensures
            r is Ok <==> Self::accepts(cond@),
            r is Ok ==> r->Ok_0.condition() == cond@,
            r is Err ==> r->Err_0.msg@ == Self::rejection(cond@),
    ;

    fn evaluate(&self, model: &Self::Model) -> (b: bool)
        ensures
            b == Self::matches(self.condition(), model),
    ;
}

/// The left operand of an expression, as a mathematical value.
pub enum LeftTree {
    /// An expression in parentheses.
    Group(Box<ExprTree>),
    /// A condition that no domain has compiled yet.
    Condition(ConditionView),
    /// A compiled condition.
    Compiled(ConditionView),
}

/// An expression as a mathematical value: a left operand and, optionally, a
/// connective with the expression to its right.
pub struct ExprTree {
    pub left: LeftTree,
    pub operator: Option<CombineOperator>,
    pub right: Option<Box<ExprTree>>,
}

impl LeftTree {
    pub open spec fn well_formed(self) -> bool
        decreases self,
    {
        match self {
            LeftTree::Group(e) => e.well_formed(),
            _ => true,
        }
    }

    /// Whether a right operand stands behind every connective that
    /// evaluating the operand comes by.
    pub open spec fn connected(self) -> bool
        decreases self,
    {
        match self {
            LeftTree::Group(e) => e.connected(),
            _ => true,
        }
    }

    /// Whether no condition is left to compile.
    pub open spec fn is_compiled(self) -> bool
        decreases self,
    {
        match self {
            LeftTree::Group(e) => e.is_compiled(),
            LeftTree::Condition(_) => false,
            LeftTree::Compiled(_) => true,
        }
    }

    /// Whether `c` is one of the conditions that are left to compile.
    pub open spec fn mentions(self, c: ConditionView) -> bool
        decreases self,
    {
        match self {
            LeftTree::Group(e) => e.mentions(c),
            LeftTree::Condition(d) => d == c,
            LeftTree::Compiled(_) => false,
        }
    }

    /// The operand after compiling, and the reason of the first condition
    /// that the domain rejects, if there is one.
    pub open spec fn compiled<F: Filter>(self) -> (LeftTree, Option<Seq<char>>)
        decreases self,
    {
        match self {
            LeftTree::Group(e) => (LeftTree::Group(Box::new(e.compiled::<F>().0)), e.compiled::<
                F,
            >().1),
            LeftTree::Condition(c) => if F::accepts(c) {
                (LeftTree::Compiled(c), None)
            } else {
                (LeftTree::Condition(c), Some(F::rejection(c)))
            },
            LeftTree::Compiled(c) => (LeftTree::Compiled(c), None),
        }
    }

    /// What the operand says of `model`. A condition that was not compiled
    /// holds of nothing.
    pub open spec fn holds<F: Filter>(self, model: &F::Model) -> bool
        decreases self,
    {
        match self {
            LeftTree::Group(e) => e.holds::<F>(model),
            LeftTree::Condition(_) => false,
            LeftTree::Compiled(c) => F::matches(c, model),
        }
    }
}

impl ExprTree {
    /// A connective stands exactly where a right operand stands.
    pub open spec fn well_formed(self) -> bool
        decreases self,
    {
        &&& self.left.well_formed()
        &&& self.operator is Some <==> self.right is Some
        &&& match self.right {
            Some(r) => r.well_formed(),
            None => true,
        }
    }

    /// Whether a right operand stands behind every connective that
    /// evaluating the expression comes by: behind its own, if it has one,
    /// and behind those of its operands. A right operand without a
    /// connective is never looked at.
    pub open spec fn connected(self) -> bool
        decreases self,
    {
        &&& self.left.connected()
        &&& match self.operator {
            Some(_) => match self.right {
                Some(r) => r.connected(),
                None => false,
            },
            None => true,
        }
    }

    /// Whether no condition is left to compile.
    pub open spec fn is_compiled(self) -> bool
        decreases self,
    {
        &&& self.left.is_compiled()
        &&& match self.right {
            Some(r) => r.is_compiled(),
            None => true,
        }
    }

    /// Whether `c` is one of the conditions that are left to compile.
    pub open spec fn mentions(self, c: ConditionView) -> bool
        decreases self,
    {
        self.left.mentions(c) || match self.right {
            Some(r) => r.mentions(c),
            None => false,
        }
    }

    /// The expression after compiling, and the reason of the first condition
    /// that the domain rejects, if there is one. Conditions are compiled from
    /// left to right; behind a rejected one nothing changes.
    pub open spec fn compiled<F: Filter>(self) -> (ExprTree, Option<Seq<char>>)
        decreases self,
    {
        let (left, failure) = self.left.compiled::<F>();
        if failure is Some {
            (ExprTree { left, operator: self.operator, right: self.right }, failure)
        } else {
            match self.right {
                Some(r) => (
                    ExprTree {
                        left,
                        operator: self.operator,
                        right: Some(Box::new(r.compiled::<F>().0)),
                    },
                    r.compiled::<F>().1,
                ),
                None => (ExprTree { left, operator: self.operator, right: None }, None),
            }
        }
    }

    /// What the expression says of `model`: `AND` and `OR` join the left
    /// operand with all that stands to its right.
    pub open spec fn holds<F: Filter>(self, model: &F::Model) -> bool
        decreases self,
    {
        let left = self.left.holds::<F>(model);
        match (self.operator, self.right) {
            (Some(CombineOperator::And), Some(r)) => left && r.holds::<F>(model),
            (Some(CombineOperator::Or), Some(r)) => left || r.holds::<F>(model),
            _ => left,
        }
    }
}

/// Where compiling fails, it fails for one of the conditions of the
/// expression: the domain does not accept that condition, and the failure is
/// what the domain says against it. The lemma hands out the condition.
pub proof fn lemma_failure_is_rejection<F: Filter>(t: ExprTree) -> (c: ConditionView)
    requires
        t.compiled::<F>().1 is Some,
    ensures
        t.mentions(c),
        !F::accepts(c),
        t.compiled::<F>().1 == Some(F::rejection(c)),
    decreases t,
{
    reveal_with_fuel(ExprTree::compiled, 2);
    reveal_with_fuel(LeftTree::compiled, 2);
    reveal_with_fuel(ExprTree::mentions, 2);
    reveal_with_fuel(LeftTree::mentions, 2);
    if t.left.compiled::<F>().1 is Some {
        match t.left {
            LeftTree::Group(e) => lemma_failure_is_rejection::<F>(*e),
            LeftTree::Condition(d) => d,
            LeftTree::Compiled(d) => d,
        }
    } else {
        lemma_failure_is_rejection::<F>(*t.right->0)
    }
}

/// In a well-formed expression a right operand stands behind every
/// connective: an expression that was read can be evaluated.
pub proof fn lemma_well_formed_connected(t: ExprTree)
    requires
        t.well_formed(),
    ensures
        t.connected(),
    decreases t,
{
    reveal_with_fuel(ExprTree::well_formed, 2);
    reveal_with_fuel(LeftTree::well_formed, 2);
    reveal_with_fuel(ExprTree::connected, 2);
    reveal_with_fuel(LeftTree::connected, 2);
    match t.left {
        LeftTree::Group(e) => {
            lemma_well_formed_connected(*e);
        },
        _ => {},
    }
    match t.right {
        Some(r) => {
            lemma_well_formed_connected(*r);
        },
        None => {},
    }
}

/// Compiling leaves the shape of an expression as it is; where it succeeds,
/// no condition is left to compile.
pub proof fn lemma_compiled_shape<F: Filter>(t: ExprTree)
    requires
        t.well_formed(),
    ensures
        t.compiled::<F>().0.well_formed(),
        t.compiled::<F>().1 is None ==> t.compiled::<F>().0.is_compiled(),
    decreases t,
{
    reveal_with_fuel(ExprTree::compiled, 2);
    reveal_with_fuel(LeftTree::compiled, 2);
    reveal_with_fuel(ExprTree::well_formed, 2);
    reveal_with_fuel(LeftTree::well_formed, 2);
    reveal_with_fuel(ExprTree::is_compiled, 2);
    reveal_with_fuel(LeftTree::is_compiled, 2);
    match t.left {
        LeftTree::Group(e) => {
            lemma_compiled_shape::<F>(*e);
        },
        _ => {},
    }
    match t.right {
        Some(r) => {
            lemma_compiled_shape::<F>(*r);
        },
        None => {},
    }
}

/// What stands on the left of an expression: a condition as it was read, the
/// filter that the condition was compiled to, or an expression in brackets.
pub enum LeftExpression<F> {
    Expression(Expression<F>),
    Condition(Condition),
    CompiledFilter(F),
}

/// An expression: what stands on the left, and, behind a connective, the
/// expression on the right.
pub struct Expression<F> {
    pub left: Box<LeftExpression<F>>,
    pub operator: Option<CombineOperator>,
    pub right: Option<Box<Expression<F>>>,
}

impl<F: Filter> LeftExpression<F> {
    pub open spec fn tree(&self) -> LeftTree
        decreases self,
    {
        match self {
            LeftExpression::Expression(e) => LeftTree::Group(Box::new(e.tree())),
            LeftExpression::Condition(c) => LeftTree::Condition(c@),
            LeftExpression::CompiledFilter(f) => LeftTree::Compiled(f.condition()),
        }
    }
}

impl<F: Filter> Expression<F> {
    /// The expression as a mathematical value.
    pub open spec fn tree(&self) -> ExprTree
        decreases self,
    {
        ExprTree {
            left: self.left.tree(),
            operator: self.operator,
            right: match self.right {
                Some(r) => Some(Box::new(r.tree())),
                None => None,
            },
        }
    }

    /// Compiles every condition, from left to right, and stops at the first
    /// that the domain rejects.
    pub fn compile(&mut self) -> (r: Result<(), CompileError>)
        ensures
            final(self).tree() == old(self).tree().compiled::<F>().0,
            r is Ok <==> old(self).tree().compiled::<F>().1 is None,
            r is Err ==> Some(r->Err_0.msg@) == old(self).tree().compiled::<F>().1,
        decreases *old(self),
    {
        proof {
            reveal_with_fuel(ExprTree::compiled, 2);
            reveal_with_fuel(LeftTree::compiled, 2);
            reveal_with_fuel(Expression::tree, 2);
            reveal_with_fuel(LeftExpression::tree, 2);
        }
        let mut held: Box<LeftExpression<F>> = Box::new(
            LeftExpression::Condition(
                Condition {
                    ident: String::new(),
                    operator: super::condition::Operator::Equals,
                    value: super::condition::Value::Integer(0),
                },
            ),
        );
        core::mem::swap(&mut self.left, &mut held);
        let (left, failure) = Self::compile_left(*held);
        self.left = Box::new(left);
        match failure {
            Some(e) => {
                return Err(e);
            },
            None => {},
        }
        match self.right.take() {
            Some(right) => {
                let mut right = right;
                let r = right.compile();
                self.right = Some(right);
                r
            },
            None => Ok(()),
        }
    }

    /// Compiles a left operand.
    fn compile_left(left: LeftExpression<F>) -> (r: (LeftExpression<F>, Option<CompileError>))
        ensures
            r.0.tree() == left.tree().compiled::<F>().0,
            r.1 is None <==> left.tree().compiled::<F>().1 is None,
            r.1 is Some ==> Some(r.1->0.msg@) == left.tree().compiled::<F>().1,
        decreases left,
    {
        proof {
            reveal_with_fuel(ExprTree::compiled, 2);
            reveal_with_fuel(LeftTree::compiled, 2);
            reveal_with_fuel(Expression::tree, 2);
            reveal_with_fuel(LeftExpression::tree, 2);
        }
        match left {
            LeftExpression::Expression(expr) => {
                let mut expr = expr;
                match expr.compile() {
                    Ok(_) => (LeftExpression::Expression(expr), None),
                    Err(e) => (LeftExpression::Expression(expr), Some(e)),
                }
            },
            LeftExpression::Condition(cond) => {
                match F::compile(cond.clone()) {
                    Ok(f) => (LeftExpression::CompiledFilter(f), None),
                    Err(e) => (LeftExpression::Condition(cond), Some(e)),
                }
            },
            LeftExpression::CompiledFilter(f) => (LeftExpression::CompiledFilter(f), None),
        }
    }

    /// What the expression says of `model`. A right operand must stand
    /// behind every connective that evaluating comes by.
    pub fn evaluate(&self, model: &F::Model) -> (b: bool)
        requires
            self.tree().connected(),
        ensures
            b == self.tree().holds::<F>(model),
        decreases self,
    {
        proof {
            reveal_with_fuel(ExprTree::connected, 2);
            reveal_with_fuel(LeftTree::connected, 2);
            reveal_with_fuel(ExprTree::holds, 2);
            reveal_with_fuel(Expression::tree, 2);
        }
        let left_result = match &*self.left {
            LeftExpression::CompiledFilter(filter) => filter.evaluate(model),
            LeftExpression::Expression(e) => e.evaluate(model),
            _ => false,
        };
        match (&self.operator, &self.right) {
            (Some(CombineOperator::And), Some(right)) => left_result && right.evaluate(model),
            (Some(CombineOperator::Or), Some(right)) => left_result || right.evaluate(model),
            _ => left_result,
        }
    }
}

} // verus!
