//! Room for indentation: whether every indentation that rendering a node
//! reaches can be held in sixteen bits.

use vstd::prelude::*;
use crate::ast::{
    branch_depth, branches_depth, def_depth, defs_depth, expr_depth, exprs_depth, field_depth,
    fields_depth, lines_depth, literal_depth, max, segment_depth, segments_depth, AssignedField,
    CommentOrNewline, Def, Expr, Pattern, StrLiteral, StrSegment, WhenBranch,
};
use crate::layout::{any_expr_multiline, any_field_multiline, expr_multiline};
use crate::pattern::any_pattern_multiline;
use crate::render::{option_depth, step};
use crate::spaces::all_newlines;

verus! {

/// Whether an indentation can be held in a `u16`.
pub open spec fn representable(indent: int) -> bool {
    indent <= u16::MAX
}

/// Whether an expression can be rendered at `indent`: no indentation that
/// its layout reaches leaves the range of `u16`.
pub open spec fn expr_fits(e: Expr, indent: int) -> bool
    decreases expr_depth(e), 0nat, 0nat,
{
    match e {
        Expr::SpaceBefore(sub, _) => expr_fits(*sub, indent),
        Expr::SpaceAfter(sub, _) => expr_fits(*sub, indent),
        Expr::ParensAround(sub) => expr_fits(*sub, indent),
        Expr::Nested(sub) => expr_fits(*sub, indent),
        Expr::PrecedenceConflict(_, _, sub) => expr_fits(*sub, indent),
        Expr::UnaryOp(sub, _) => expr_fits(*sub, indent),
        Expr::Access(sub, _) => expr_fits(*sub, indent),
        Expr::Str(literal) => literal_fits(literal, indent),
        Expr::Apply(head, args) => apply_fits(*head, args@, indent),
        Expr::Record { update, fields, final_comments } => record_fits(
            match update {
                Some(base) => Some(*base),
                None => None,
            },
            fields@,
            final_comments@,
            indent,
        ),
        Expr::Closure(patterns, body) => closure_fits(patterns@, *body, indent),
        Expr::Defs(defs, ret) => let_fits(defs@, *ret, indent),
        Expr::If(cond, then_branch, else_branch) => if_fits(
            *cond,
            *then_branch,
            *else_branch,
            indent,
        ),
        Expr::When(cond, branches) => when_fits(*cond, branches@, indent),
        Expr::List { items, final_comments } => list_fits(items@, final_comments@, indent),
        Expr::BinOp(left, _, right) => bin_op_fits(*left, *right, false, indent),
        _ => true,
    }
}

pub open spec fn segment_fits(segment: StrSegment, indent: int) -> bool
    decreases segment_depth(segment), 0nat, 0nat,
{
    match segment {
        StrSegment::Interpolated(inner) => expr_fits(*inner, indent),
        _ => true,
    }
}

pub open spec fn segments_fit(segments: Seq<StrSegment>, indent: int) -> bool
    decreases segments_depth(segments), 1nat, segments.len(),
{
    segments.len() > 0 ==> segments_fit(segments.drop_last(), indent) && segment_fits(
        segments.last(),
        indent,
    )
}

pub open spec fn lines_fit(lines: Seq<Vec<StrSegment>>, indent: int) -> bool
    decreases lines_depth(lines), 2nat, lines.len(),
{
    lines.len() > 0 ==> lines_fit(lines.drop_last(), indent) && segments_fit(
        lines.last()@,
        indent,
    )
}

pub open spec fn literal_fits(literal: StrLiteral, indent: int) -> bool
    decreases literal_depth(literal), 3nat, 0nat,
{
    match literal {
        StrLiteral::PlainLine(_) => true,
        StrLiteral::Line(segments) => segments_fit(segments@, 0),
        StrLiteral::Block(lines) => lines_fit(lines@, indent),
    }
}

/// Whether each expression of a sequence can be rendered at `indent`.
pub open spec fn exprs_fit(es: Seq<Expr>, indent: int) -> bool
    decreases exprs_depth(es), 1nat, es.len(),
{
    es.len() > 0 ==> exprs_fit(es.drop_last(), indent) && expr_fits(es.last(), indent)
}

/// Whether the arguments of an application can be rendered: on lines of
/// their own one step in, or on the line of the application.
pub open spec fn args_fit(args: Seq<Expr>, spread: bool, indent: int) -> bool
    decreases exprs_depth(args), 2nat, 0nat,
{
    if spread {
        representable(indent + step()) && exprs_fit(args, indent + step())
    } else {
        exprs_fit(args, indent)
    }
}

pub open spec fn apply_fits(head: Expr, args: Seq<Expr>, indent: int) -> bool
    decreases max(expr_depth(head), exprs_depth(args)), 3nat, 0nat,
{
    expr_fits(head, indent) && args_fit(args, any_expr_multiline(args), indent)
}

pub open spec fn list_fits(items: Seq<Expr>, final_comments: Seq<CommentOrNewline>, indent: int)
    -> bool
    decreases exprs_depth(items), 4nat, 0nat,
{
    if items.len() == 0 && all_newlines(final_comments) {
        true
    } else if any_expr_multiline(items) {
        representable(indent + step()) && exprs_fit(items, indent + step())
    } else {
        exprs_fit(items, indent)
    }
}

pub open spec fn field_fits(field: AssignedField, indent: int) -> bool
    decreases field_depth(field), 0nat, 0nat,
{
    match field {
        AssignedField::RequiredValue(_, _, value) => expr_fits(*value, indent),
        AssignedField::OptionalValue(_, _, value) => expr_fits(*value, indent),
        AssignedField::SpaceBefore(sub, _) => field_fits(*sub, indent),
        AssignedField::SpaceAfter(sub, _) => field_fits(*sub, indent),
        _ => true,
    }
}

pub open spec fn fields_fit(fields: Seq<AssignedField>, indent: int) -> bool
    decreases fields_depth(fields), 1nat, fields.len(),
{
    fields.len() > 0 ==> fields_fit(fields.drop_last(), indent) && field_fits(
        fields.last(),
        indent,
    )
}

pub open spec fn record_fits(
    update: Option<Expr>,
    fields: Seq<AssignedField>,
    final_comments: Seq<CommentOrNewline>,
    indent: int,
) -> bool
    decreases max(option_depth(update), fields_depth(fields)), 2nat, 0nat,
{
    if fields.len() == 0 && all_newlines(final_comments) {
        true
    } else {
        (match update {
            Some(base) => expr_fits(base, indent),
            None => true,
        }) && if any_field_multiline(fields) || final_comments.len() > 0 {
            representable(indent + step()) && fields_fit(fields, indent + step())
        } else {
            fields_fit(fields, indent)
        }
    }
}

pub open spec fn closure_fits(patterns: Seq<Pattern>, body: Expr, indent: int) -> bool
    decreases expr_depth(body), 1nat, 0nat,
{
    let pattern_indent = if any_pattern_multiline(patterns) {
        indent + step()
    } else {
        indent
    };
    let body_indent = if expr_multiline(body) {
        pattern_indent + step()
    } else {
        pattern_indent
    };
    representable(body_indent) && expr_fits(body, body_indent)
}

pub open spec fn def_fits(def: Def, indent: int) -> bool
    decreases def_depth(def), 0nat, 0nat,
{
    match def {
        Def::Body(_, body) => expr_fits(*body, indent),
        Def::SpaceBefore(sub, _) => def_fits(*sub, indent),
        Def::SpaceAfter(sub, _) => def_fits(*sub, indent),
        Def::Nested(sub) => def_fits(*sub, indent),
    }
}

pub open spec fn defs_fit(defs: Seq<Def>, indent: int) -> bool
    decreases defs_depth(defs), 1nat, defs.len(),
{
    defs.len() > 0 ==> defs_fit(defs.drop_last(), indent) && def_fits(defs.last(), indent)
}

pub open spec fn let_fits(defs: Seq<Def>, ret: Expr, indent: int) -> bool
    decreases max(defs_depth(defs), expr_depth(ret)), 2nat, 0nat,
{
    defs_fit(defs, indent) && expr_fits(ret, indent)
}

pub open spec fn if_fits(cond: Expr, then_branch: Expr, else_branch: Expr, indent: int) -> bool
    decreases max(expr_depth(cond), max(expr_depth(then_branch), expr_depth(else_branch))), 3nat,
        0nat,
{
    let inner = if expr_multiline(cond) || expr_multiline(then_branch) || expr_multiline(
        else_branch,
    ) {
        indent + step()
    } else {
        indent
    };
    representable(inner) && expr_fits(
        cond,
        if expr_multiline(cond) {
            inner
        } else {
            indent
        },
    ) && expr_fits(then_branch, inner) && expr_fits(else_branch, inner)
}

pub open spec fn branch_fits(branch: WhenBranch, indent: int) -> bool
    decreases branch_depth(branch), 0nat, 0nat,
{
    representable(indent + 2 * step()) && expr_fits(branch.value, indent + 2 * step())
        && match branch.guard {
        Some(guard) => expr_fits(guard, indent + step()),
        None => true,
    }
}

pub open spec fn branches_fit(branches: Seq<WhenBranch>, indent: int) -> bool
    decreases branches_depth(branches), 1nat, branches.len(),
{
    branches.len() > 0 ==> branches_fit(branches.drop_last(), indent) && branch_fits(
        branches.last(),
        indent,
    )
}

pub open spec fn when_fits(cond: Expr, branches: Seq<WhenBranch>, indent: int) -> bool
    decreases max(expr_depth(cond), branches_depth(branches)), 3nat, 0nat,
{
    (if expr_multiline(cond) {
        representable(indent + step()) && expr_fits(cond, indent + step())
    } else {
        expr_fits(cond, indent)
    }) && branches_fit(branches, indent)
}

/// Whether a chain of operators can be rendered; a chain that is spread
/// over lines puts its operators one step in.
pub open spec fn bin_op_fits(left: Expr, right: Expr, in_spread_chain: bool, indent: int) -> bool
    decreases max(expr_depth(left), expr_depth(right)), 1nat, 0nat,
{
    let spread = expr_multiline(right) || expr_multiline(left) || in_spread_chain;
    expr_fits(left, indent) && (spread ==> representable(indent + step())) && match right {
        Expr::BinOp(next_left, _, next_right) => bin_op_fits(
            *next_left,
            *next_right,
            spread,
            indent,
        ),
        _ => expr_fits(right, indent),
    }
}

pub proof fn lemma_exprs_fit(es: Seq<Expr>, indent: int, i: int)
    requires
        exprs_fit(es, indent),
        0 <= i < es.len(),
    ensures
        expr_fits(es[i], indent),
    decreases es.len(),
{
    if i < es.len() - 1 {
        lemma_exprs_fit(es.drop_last(), indent, i);
    }
}

pub proof fn lemma_segments_fit(segments: Seq<StrSegment>, indent: int, i: int)
    requires
        segments_fit(segments, indent),
        0 <= i < segments.len(),
    ensures
        segment_fits(segments[i], indent),
    decreases segments.len(),
{
    if i < segments.len() - 1 {
        lemma_segments_fit(segments.drop_last(), indent, i);
    }
}

pub proof fn lemma_lines_fit(lines: Seq<Vec<StrSegment>>, indent: int, i: int)
    requires
        lines_fit(lines, indent),
        0 <= i < lines.len(),
    ensures
        segments_fit(lines[i]@, indent),
    decreases lines.len(),
{
    if i < lines.len() - 1 {
        lemma_lines_fit(lines.drop_last(), indent, i);
    }
}

pub proof fn lemma_fields_fit(fields: Seq<AssignedField>, indent: int, i: int)
    requires
        fields_fit(fields, indent),
        0 <= i < fields.len(),
    ensures
        field_fits(fields[i], indent),
    decreases fields.len(),
{
    if i < fields.len() - 1 {
        lemma_fields_fit(fields.drop_last(), indent, i);
    }
}

pub proof fn lemma_defs_fit(defs: Seq<Def>, indent: int, i: int)
    requires
        defs_fit(defs, indent),
        0 <= i < defs.len(),
    ensures
        def_fits(defs[i], indent),
    decreases defs.len(),
{
    if i < defs.len() - 1 {
        lemma_defs_fit(defs.drop_last(), indent, i);
    }
}

pub proof fn lemma_branches_fit(branches: Seq<WhenBranch>, indent: int, i: int)
    requires
        branches_fit(branches, indent),
        0 <= i < branches.len(),
    ensures
        branch_fits(branches[i], indent),
    decreases branches.len(),
{
    if i < branches.len() - 1 {
        lemma_branches_fit(branches.drop_last(), indent, i);
    }
}

} // verus!
