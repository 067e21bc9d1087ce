//! The invariants of the syntax tree: what the parser guarantees of every
//! tree it hands out.

use vstd::prelude::*;
use crate::ast::{AssignedField, Def, Expr, Pattern, StrLiteral, StrSegment, WhenBranch};

verus! {

/// Whether a pattern keeps the invariants: every trivia wrapper in it holds
/// at least one item of trivia and does not wrap a wrapper of its own kind.
pub open spec fn pattern_well_formed(p: Pattern) -> bool
    decreases p,
{
    match p {
        Pattern::Apply(head, args) => pattern_well_formed(*head) && forall|i: int|
            0 <= i < args@.len() ==> pattern_well_formed(#[trigger] args@[i]),
        Pattern::RecordDestructure(fields) => forall|i: int|
            0 <= i < fields@.len() ==> pattern_well_formed(#[trigger] fields@[i]),
        Pattern::SpaceBefore(sub, trivia) => trivia@.len() > 0 && !(*sub is SpaceBefore)
            && pattern_well_formed(*sub),
        Pattern::SpaceAfter(sub, trivia) => trivia@.len() > 0 && !(*sub is SpaceAfter)
            && pattern_well_formed(*sub),
        Pattern::Nested(sub) => pattern_well_formed(*sub),
        _ => true,
    }
}

/// Whether an expression keeps the invariants: every trivia wrapper holds at
/// least one item of trivia and does not wrap a wrapper of its own kind; a
/// let-form holds a definition; a pattern match holds a branch, and each
/// branch a pattern; an application holds an argument; a closure holds a
/// pattern.
pub open spec fn expr_well_formed(e: Expr) -> bool
    decreases e,
{
    match e {
        Expr::Str(StrLiteral::Line(segments)) => forall|i: int|
            0 <= i < segments@.len() ==> segment_well_formed(#[trigger] segments@[i]),
        Expr::Str(StrLiteral::Block(lines)) => forall|i: int, j: int|
            0 <= i < lines@.len() && 0 <= j < lines@[i]@.len() ==> segment_well_formed(
                #[trigger] lines@[i]@[j],
            ),
        Expr::Access(sub, _) => expr_well_formed(*sub),
        Expr::List { items, .. } => forall|i: int|
            0 <= i < items@.len() ==> expr_well_formed(#[trigger] items@[i]),
        Expr::Record { update, fields, .. } => (match update {
            Some(base) => expr_well_formed(*base),
            None => true,
        }) && forall|i: int| 0 <= i < fields@.len() ==> field_well_formed(#[trigger] fields@[i]),
        Expr::Closure(patterns, body) => patterns@.len() > 0 && expr_well_formed(*body)
            && forall|i: int|
            0 <= i < patterns@.len() ==> pattern_well_formed(#[trigger] patterns@[i]),
        Expr::Defs(defs, ret) => defs@.len() > 0 && expr_well_formed(*ret) && forall|i: int|
            0 <= i < defs@.len() ==> def_well_formed(#[trigger] defs@[i]),
        Expr::Apply(head, args) => args@.len() > 0 && expr_well_formed(*head) && forall|i: int|
            0 <= i < args@.len() ==> expr_well_formed(#[trigger] args@[i]),
        Expr::BinOp(left, _, right) => expr_well_formed(*left) && expr_well_formed(*right),
        Expr::UnaryOp(sub, _) => expr_well_formed(*sub),
        Expr::If(cond, then_branch, else_branch) => expr_well_formed(*cond) && expr_well_formed(
            *then_branch,
        ) && expr_well_formed(*else_branch),
        Expr::When(cond, branches) => branches@.len() > 0 && expr_well_formed(*cond)
            && forall|i: int|
            0 <= i < branches@.len() ==> branch_well_formed(#[trigger] branches@[i]),
        Expr::SpaceBefore(sub, trivia) => trivia@.len() > 0 && !(*sub is SpaceBefore)
            && expr_well_formed(*sub),
        Expr::SpaceAfter(sub, trivia) => trivia@.len() > 0 && !(*sub is SpaceAfter)
            && expr_well_formed(*sub),
        Expr::ParensAround(sub) => expr_well_formed(*sub),
        Expr::Nested(sub) => expr_well_formed(*sub),
        Expr::PrecedenceConflict(_, _, sub) => expr_well_formed(*sub),
        _ => true,
    }
}

pub open spec fn segment_well_formed(segment: StrSegment) -> bool
    decreases segment,
{
    match segment {
        StrSegment::Interpolated(inner) => expr_well_formed(*inner),
        _ => true,
    }
}

pub open spec fn field_well_formed(field: AssignedField) -> bool
    decreases field,
{
    match field {
        AssignedField::RequiredValue(_, _, value) => expr_well_formed(*value),
        AssignedField::OptionalValue(_, _, value) => expr_well_formed(*value),
        AssignedField::SpaceBefore(sub, trivia) => trivia@.len() > 0 && !(*sub is SpaceBefore)
            && field_well_formed(*sub),
        AssignedField::SpaceAfter(sub, trivia) => trivia@.len() > 0 && !(*sub is SpaceAfter)
            && field_well_formed(*sub),
        _ => true,
    }
}

pub open spec fn def_well_formed(def: Def) -> bool
    decreases def,
{
    match def {
        Def::Body(pattern, body) => pattern_well_formed(pattern) && expr_well_formed(*body),
        Def::SpaceBefore(sub, trivia) => trivia@.len() > 0 && !(*sub is SpaceBefore)
            && def_well_formed(*sub),
        Def::SpaceAfter(sub, trivia) => trivia@.len() > 0 && !(*sub is SpaceAfter)
            && def_well_formed(*sub),
        Def::Nested(sub) => def_well_formed(*sub),
    }
}

pub open spec fn branch_well_formed(branch: WhenBranch) -> bool
    decreases branch,
{
    &&& branch.patterns@.len() > 0
    &&& forall|i: int|
        0 <= i < branch.patterns@.len() ==> pattern_well_formed(
            (#[trigger] branch.patterns@[i]).value,
        )
    &&& expr_well_formed(branch.value)
    &&& match branch.guard {
        Some(guard) => expr_well_formed(guard),
        None => true,
    }
}

} // verus!
