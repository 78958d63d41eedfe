//! The flat text of a document: what it prints when no group breaks. The
//! layout options (indentation, line length, where breaks may go around
//! assignments and function parameters) only decide where lines may end, so
//! the flat text of an expression depends on the embracing option alone.
use crate::ast::{
    Arg, Args, ElseIfConditional, Expression, ForLoop, FunctionCall, FunctionDefinition,
    IfConditional, IfExpression, Lambda, RepeatExpression, SubsetExpression, TermExpr,
    TrailingElse, WhileExpression,
};
use crate::config::FormattingConfig;
use crate::doc::{
    spec_cons, spec_group, spec_nest, spec_nest_hanging, spec_nest_if_break, Doc, ShouldBreak,
};
use crate::doc_rules::{
    arg_doc, arg_list_doc, args_doc, block_doc, bop_doc, braces_doc, call_doc, commented_token_doc,
    delimiter_doc, double_brace_doc, else_ifs_doc, embracing_doc, expr_doc, exprs_doc, for_doc,
    function_def_doc, if_conditional_doc, if_doc, is_double_brace, is_embracing_term, join_prefix,
    is_spaced_operator, lambda_doc, next_group, opt_expr_doc, param_list_doc, params_group,
    parens_doc,
    reduce_with_breaks, repeat_doc, spec_join_ungroupped, subset_doc, term_doc, while_doc,
};
use crate::tokens::CommentedToken;
use std::rc::Rc;
use vstd::prelude::*;

verus! {

/// What a document prints when no group breaks: each text, and each break as
/// the text it stands for.
pub open spec fn flat_text<'a>(d: Doc<'a>) -> Seq<char>
    decreases d,
{
    match d {
        Doc::Nil => Seq::empty(),
        Doc::Cons(a, b, _) => flat_text(*a) + flat_text(*b),
        Doc::Text(s, _, _) => s@,
        Doc::Nest(_, x, _) => flat_text(*x),
        Doc::NestIfBreak(_, x, _, _) => flat_text(*x),
        Doc::NestHanging(x, _) => flat_text(*x),
        Doc::Break(s) => s@,
        Doc::Group(g, _) => flat_text(*g.0),
    }
}

/// Two documents print the same flat text, and one is `Nil` exactly when the
/// other is.
pub open spec fn flat_alike<'a>(d1: Doc<'a>, d2: Doc<'a>) -> bool {
    &&& flat_text(d1) == flat_text(d2)
    &&& (d1 is Nil <==> d2 is Nil)
}

/// Two lists of documents of one length, alike position by position.
pub open spec fn all_flat_alike<'a>(ds1: Seq<Rc<Doc<'a>>>, ds2: Seq<Rc<Doc<'a>>>) -> bool {
    &&& ds1.len() == ds2.len()
    &&& forall|i: int| 0 <= i < ds1.len() ==> #[trigger] flat_alike(*ds1[i], *ds2[i])
}

pub broadcast proof fn lemma_flat_cons<'a>(a: Doc<'a>, b: Doc<'a>)
    ensures
        #[trigger] flat_text(spec_cons(a, b)) == flat_text(a) + flat_text(b),
{
}

pub broadcast proof fn lemma_flat_group<'a>(d: Doc<'a>, sb: ShouldBreak, r: usize)
    ensures
        #[trigger] flat_text(spec_group(d, sb, r)) == flat_text(d),
{
}

pub broadcast proof fn lemma_flat_nest<'a>(d: Doc<'a>, indent: i32)
    ensures
        #[trigger] flat_text(spec_nest(d, indent)) == flat_text(d),
{
}

pub broadcast proof fn lemma_flat_nest_if_break<'a>(d: Doc<'a>, indent: i32, o: usize)
    ensures
        #[trigger] flat_text(spec_nest_if_break(d, indent, o)) == flat_text(d),
{
}

pub broadcast proof fn lemma_flat_nest_hanging<'a>(d: Doc<'a>)
    ensures
        #[trigger] flat_text(spec_nest_hanging(d)) == flat_text(d),
{
}

pub broadcast group group_flat {
    lemma_flat_cons,
    lemma_flat_group,
    lemma_flat_nest,
    lemma_flat_nest_if_break,
    lemma_flat_nest_hanging,
}

// ---------------------------------------------------------------------------
// Lists of documents
// ---------------------------------------------------------------------------
proof fn lemma_push_flat_alike<'a>(
    ds1: Seq<Rc<Doc<'a>>>,
    ds2: Seq<Rc<Doc<'a>>>,
    x1: Rc<Doc<'a>>,
    x2: Rc<Doc<'a>>,
)
    requires
        all_flat_alike(ds1, ds2),
        flat_alike(*x1, *x2),
    ensures
        all_flat_alike(ds1.push(x1), ds2.push(x2)),
{
    assert forall|i: int| 0 <= i < ds1.push(x1).len() implies #[trigger] flat_alike(
        *ds1.push(x1)[i],
        *ds2.push(x2)[i],
    ) by {
        if i < ds1.len() {
            assert(ds1.push(x1)[i] == ds1[i]);
            assert(ds2.push(x2)[i] == ds2[i]);
        } else {
            assert(ds1.push(x1)[i] == x1);
            assert(ds2.push(x2)[i] == x2);
        }
    }
}

proof fn lemma_join_prefix_flat<'a>(ds1: Seq<Rc<Doc<'a>>>, ds2: Seq<Rc<Doc<'a>>>, n: nat)
    requires
        all_flat_alike(ds1, ds2),
        n <= ds1.len(),
    ensures
        flat_alike(join_prefix(ds1, Doc::Nil, n), join_prefix(ds2, Doc::Nil, n)),
    decreases n,
{
    broadcast use group_flat;

    if n == 1 {
        assert(flat_alike(*ds1[0], *ds2[0]));
    } else if n > 1 {
        lemma_join_prefix_flat(ds1, ds2, (n - 1) as nat);
        assert(flat_alike(*ds1[n - 1], *ds2[n - 1]));
    }
}

proof fn lemma_join_flat<'a>(ds1: Seq<Rc<Doc<'a>>>, ds2: Seq<Rc<Doc<'a>>>)
    requires
        all_flat_alike(ds1, ds2),
    ensures
        flat_alike(spec_join_ungroupped(ds1, Doc::Nil), spec_join_ungroupped(ds2, Doc::Nil)),
{
    broadcast use group_flat;

    lemma_join_prefix_flat(ds1, ds2, ds1.len());
}

proof fn lemma_reduce_flat<'a>(ds1: Seq<Rc<Doc<'a>>>, ds2: Seq<Rc<Doc<'a>>>, n: nat)
    requires
        all_flat_alike(ds1, ds2),
        1 <= n <= ds1.len(),
    ensures
        flat_text(reduce_with_breaks(ds1, n)) == flat_text(reduce_with_breaks(ds2, n)),
    decreases n,
{
    broadcast use group_flat;

    if n == 1 {
        assert(flat_alike(*ds1[0], *ds2[0]));
    } else {
        lemma_reduce_flat(ds1, ds2, (n - 1) as nat);
        assert(flat_alike(*ds1[n - 1], *ds2[n - 1]));
    }
}

// ---------------------------------------------------------------------------
// Expressions
// ---------------------------------------------------------------------------
/// The flat text of an expression's document does not depend on the layout
/// options but the embracing one: two configurations that agree on it give
/// the same flat text, whatever their indentation, line length, line breaks
/// around assignments and function parameters, and whatever the counters.
pub proof fn law_flat_text_ignores_layout_options<'a>(
    e: Expression<'a>,
    c1: FormattingConfig,
    c2: FormattingConfig,
    r1: nat,
    r2: nat,
)
    requires
        c1.embracing_op_no_nl == c2.embracing_op_no_nl,
    ensures
        flat_text(expr_doc(e, c1, r1).0) == flat_text(expr_doc(e, c2, r2).0),
{
    lemma_expr_flat(e, c1, c2, r1, r2);
}

proof fn lemma_expr_flat<'a>(e: Expression<'a>, c1: FormattingConfig, c2: FormattingConfig, r1: nat, r2: nat)
    requires
        c1.embracing_op_no_nl == c2.embracing_op_no_nl,
    ensures
        flat_alike(expr_doc(e, c1, r1).0, expr_doc(e, c2, r2).0),
    decreases e, 0nat,
{
    broadcast use group_flat;

    match e {
        Expression::Term(t) => lemma_term_flat(*t, c1, c2, r1, r2),
        Expression::Unary(_, x) => lemma_expr_flat(*x, c1, c2, r1, r2),
        Expression::Bop(op, lhs, rhs) => {
            lemma_expr_flat(*lhs, c1, c2, r1, r2);
            let (ld1, s1) = expr_doc(*lhs, c1, r1);
            let (ld2, s2) = expr_doc(*lhs, c2, r2);
            lemma_expr_flat(*rhs, c1, c2, s1, s2);
            let (rd1, t1) = expr_doc(*rhs, c1, s1);
            let (rd2, t2) = expr_doc(*rhs, c2, s2);
            lemma_bop_flat(*op, ld1, rd1, ld2, rd2, c1, c2, t1, t2);
        },
        Expression::Formula(_, x) => lemma_expr_flat(*x, c1, c2, r1, r2),
        Expression::FunctionDef(f) => lemma_function_def_flat(f, c1, c2, r1, r2),
        Expression::IfExpression(i) => lemma_if_flat(i, c1, c2, r1, r2),
        Expression::WhileExpression(w) => lemma_while_flat(w, c1, c2, r1, r2),
        Expression::RepeatExpression(rep) => lemma_repeat_flat(rep, c1, c2, r1, r2),
        Expression::FunctionCall(c) => lemma_call_flat(c, c1, c2, r1, r2),
        Expression::SubsetExpression(s) => lemma_subset_flat(s, c1, c2, r1, r2),
        Expression::ForLoopExpression(f) => lemma_for_flat(f, c1, c2, r1, r2),
        Expression::LambdaFunction(l) => lemma_lambda_flat(l, c1, c2, r1, r2),
        _ => {},
    }
}

/// Around an assignment, a space as text and a break that stands for a space
/// print alike.
proof fn lemma_bop_flat<'a>(
    op: CommentedToken<'a>,
    ld1: Doc<'a>,
    rd1: Doc<'a>,
    ld2: Doc<'a>,
    rd2: Doc<'a>,
    c1: FormattingConfig,
    c2: FormattingConfig,
    t1: nat,
    t2: nat,
)
    requires
        flat_text(ld1) == flat_text(ld2),
        flat_text(rd1) == flat_text(rd2),
    ensures
        flat_alike(bop_doc(op, ld1, rd1, c1, t1).0, bop_doc(op, ld2, rd2, c2, t2).0),
{
    broadcast use group_flat;

}

proof fn lemma_term_flat<'a>(t: TermExpr<'a>, c1: FormattingConfig, c2: FormattingConfig, r1: nat, r2: nat)
    requires
        c1.embracing_op_no_nl == c2.embracing_op_no_nl,
    ensures
        flat_alike(term_doc(t, c1, r1).0, term_doc(t, c2, r2).0),
    decreases t, 2nat,
{
    broadcast use group_flat;

    match (t.pre_delimiters, t.post_delimiters) {
        (Some(pre), Some(_)) => {
            assert(is_embracing_term(t, c1) == is_embracing_term(t, c2));
            if is_embracing_term(t, c1) {
                lemma_embracing_flat(t, c1, c2, r1, r2);
            } else if pre.token is LBrace {
                lemma_braces_flat(t, c1, c2, r1, r2);
            } else {
                lemma_parens_flat(t, c1, c2, r1, r2);
            }
        },
        (None, None) => {
            lemma_exprs_flat(t.term@, t.term@.len(), true, c1, c2, r1, r2);
            lemma_join_flat(
                exprs_doc(t.term@, t.term@.len(), true, c1, r1).0,
                exprs_doc(t.term@, t.term@.len(), true, c2, r2).0,
            );
        },
        _ => {},
    }
}

proof fn lemma_block_flat<'a>(
    pre: Doc<'a>,
    inside1: Doc<'a>,
    inside2: Doc<'a>,
    post: Doc<'a>,
    brk: &'a str,
    c1: FormattingConfig,
    c2: FormattingConfig,
)
    requires
        flat_text(inside1) == flat_text(inside2),
    ensures
        flat_text(block_doc(pre, inside1, post, brk, c1)) == flat_text(
            block_doc(pre, inside2, post, brk, c2),
        ),
{
    broadcast use group_flat;

}

proof fn lemma_embracing_flat<'a>(
    t: TermExpr<'a>,
    c1: FormattingConfig,
    c2: FormattingConfig,
    r1: nat,
    r2: nat,
)
    requires
        c1.embracing_op_no_nl == c2.embracing_op_no_nl,
        t.pre_delimiters is Some,
        t.post_delimiters is Some,
    ensures
        flat_alike(embracing_doc(t, c1, r1).0, embracing_doc(t, c2, r2).0),
    decreases t, 1nat,
{
    broadcast use group_flat;

    if t.term@.len() == 0 || !(t.term@[0] is Term) {
    } else if is_double_brace(t) {
        lemma_double_brace_flat(t, c1, c2, r1, r2);
    } else {
        lemma_exprs_flat(t.term@, t.term@.len(), false, c1, c2, r1, r2);
        let (ds1, s1) = exprs_doc(t.term@, t.term@.len(), false, c1, r1);
        let (ds2, s2) = exprs_doc(t.term@, t.term@.len(), false, c2, r2);
        lemma_join_flat(ds1, ds2);
        lemma_block_flat(
            commented_token_doc(*t.pre_delimiters.unwrap()),
            next_group(spec_join_ungroupped(ds1, Doc::Nil), ShouldBreak::No, s1),
            next_group(spec_join_ungroupped(ds2, Doc::Nil), ShouldBreak::No, s2),
            commented_token_doc(*t.post_delimiters.unwrap()),
            " ",
            c1,
            c2,
        );
    }
}

proof fn lemma_double_brace_flat<'a>(
    t: TermExpr<'a>,
    c1: FormattingConfig,
    c2: FormattingConfig,
    r1: nat,
    r2: nat,
)
    requires
        c1.embracing_op_no_nl == c2.embracing_op_no_nl,
    ensures
        flat_alike(double_brace_doc(t, c1, r1).0, double_brace_doc(t, c2, r2).0),
    decreases t, 0nat,
{
    broadcast use group_flat;

    if t.term@.len() > 0 && t.term@[0] is Term {
        let inner = *(t.term@[0]->Term_0);
        lemma_exprs_flat(inner.term@, inner.term@.len(), false, c1, c2, r1, r2);
        lemma_join_flat(
            exprs_doc(inner.term@, inner.term@.len(), false, c1, r1).0,
            exprs_doc(inner.term@, inner.term@.len(), false, c2, r2).0,
        );
    }
}

proof fn lemma_braces_flat<'a>(t: TermExpr<'a>, c1: FormattingConfig, c2: FormattingConfig, r1: nat, r2: nat)
    requires
        c1.embracing_op_no_nl == c2.embracing_op_no_nl,
        t.pre_delimiters is Some,
        t.post_delimiters is Some,
    ensures
        flat_alike(braces_doc(t, c1, r1).0, braces_doc(t, c2, r2).0),
    decreases t, 0nat,
{
    broadcast use group_flat;

    if t.term@.len() > 0 {
        lemma_exprs_flat(t.term@, t.term@.len(), true, c1, c2, r1, r2);
        let (ds1, s1) = exprs_doc(t.term@, t.term@.len(), true, c1, r1);
        let (ds2, s2) = exprs_doc(t.term@, t.term@.len(), true, c2, r2);
        lemma_join_flat(ds1, ds2);
        lemma_block_flat(
            commented_token_doc(*t.pre_delimiters.unwrap()),
            next_group(spec_join_ungroupped(ds1, Doc::Nil), ShouldBreak::Yes, s1),
            next_group(spec_join_ungroupped(ds2, Doc::Nil), ShouldBreak::Yes, s2),
            commented_token_doc(*t.post_delimiters.unwrap()),
            " ",
            c1,
            c2,
        );
    }
}

proof fn lemma_parens_flat<'a>(t: TermExpr<'a>, c1: FormattingConfig, c2: FormattingConfig, r1: nat, r2: nat)
    requires
        c1.embracing_op_no_nl == c2.embracing_op_no_nl,
        t.pre_delimiters is Some,
        t.post_delimiters is Some,
    ensures
        flat_alike(parens_doc(t, c1, r1).0, parens_doc(t, c2, r2).0),
    decreases t, 0nat,
{
    broadcast use group_flat;

    if t.term@.len() > 0 {
        lemma_exprs_flat(t.term@, t.term@.len(), false, c1, c2, r1, r2);
        let (ds1, s1) = exprs_doc(t.term@, t.term@.len(), false, c1, r1);
        let (ds2, s2) = exprs_doc(t.term@, t.term@.len(), false, c2, r2);
        lemma_join_flat(ds1, ds2);
        lemma_block_flat(
            commented_token_doc(*t.pre_delimiters.unwrap()),
            next_group(spec_join_ungroupped(ds1, Doc::Nil), ShouldBreak::No, s1),
            next_group(spec_join_ungroupped(ds2, Doc::Nil), ShouldBreak::No, s2),
            commented_token_doc(*t.post_delimiters.unwrap()),
            "",
            c1,
            c2,
        );
    }
}

proof fn lemma_exprs_flat<'a>(
    es: Seq<Expression<'a>>,
    n: nat,
    grouped: bool,
    c1: FormattingConfig,
    c2: FormattingConfig,
    r1: nat,
    r2: nat,
)
    requires
        c1.embracing_op_no_nl == c2.embracing_op_no_nl,
    ensures
        all_flat_alike(exprs_doc(es, n, grouped, c1, r1).0, exprs_doc(es, n, grouped, c2, r2).0),
    decreases es, n,
{
    broadcast use group_flat;

    if n > 0 && n <= es.len() {
        lemma_exprs_flat(es, (n - 1) as nat, grouped, c1, c2, r1, r2);
        let (ds1, s1) = exprs_doc(es, (n - 1) as nat, grouped, c1, r1);
        let (ds2, s2) = exprs_doc(es, (n - 1) as nat, grouped, c2, r2);
        lemma_expr_flat(es[n - 1], c1, c2, s1, s2);
        let (d1, t1) = expr_doc(es[n - 1], c1, s1);
        let (d2, t2) = expr_doc(es[n - 1], c2, s2);
        if grouped {
            lemma_push_flat_alike(
                ds1,
                ds2,
                Rc::new(next_group(d1, ShouldBreak::No, t1)),
                Rc::new(next_group(d2, ShouldBreak::No, t2)),
            );
        } else {
            lemma_push_flat_alike(ds1, ds2, Rc::new(d1), Rc::new(d2));
        }
    }
}

// ---------------------------------------------------------------------------
// Arguments and parameters
// ---------------------------------------------------------------------------
proof fn lemma_opt_expr_flat<'a>(
    e: Option<Expression<'a>>,
    c1: FormattingConfig,
    c2: FormattingConfig,
    r1: nat,
    r2: nat,
)
    requires
        c1.embracing_op_no_nl == c2.embracing_op_no_nl,
    ensures
        flat_alike(opt_expr_doc(e, c1, r1).0, opt_expr_doc(e, c2, r2).0),
    decreases e, 0nat,
{
    if let Some(x) = e {
        lemma_expr_flat(x, c1, c2, r1, r2);
    }
}

proof fn lemma_arg_flat<'a>(a: Arg<'a>, c1: FormattingConfig, c2: FormattingConfig, r1: nat, r2: nat)
    requires
        c1.embracing_op_no_nl == c2.embracing_op_no_nl,
    ensures
        flat_alike(arg_doc(a, c1, r1).0, arg_doc(a, c2, r2).0),
    decreases a, 0nat,
{
    broadcast use group_flat;

    lemma_opt_expr_flat(a.0, c1, c2, r1, r2);
}

proof fn lemma_arg_list_flat<'a>(
    args: Seq<Arg<'a>>,
    n: nat,
    c1: FormattingConfig,
    c2: FormattingConfig,
    r1: nat,
    r2: nat,
)
    requires
        c1.embracing_op_no_nl == c2.embracing_op_no_nl,
    ensures
        all_flat_alike(arg_list_doc(args, n, c1, r1).0, arg_list_doc(args, n, c2, r2).0),
    decreases args, n,
{
    broadcast use group_flat;

    if n > 0 && n <= args.len() {
        lemma_arg_list_flat(args, (n - 1) as nat, c1, c2, r1, r2);
        let (ds1, s1) = arg_list_doc(args, (n - 1) as nat, c1, r1);
        let (ds2, s2) = arg_list_doc(args, (n - 1) as nat, c2, r2);
        lemma_arg_flat(args[n - 1], c1, c2, s1, s2);
        let (d1, t1) = arg_doc(args[n - 1], c1, s1);
        let (d2, t2) = arg_doc(args[n - 1], c2, s2);
        lemma_push_flat_alike(
            ds1,
            ds2,
            Rc::new(next_group(d1, ShouldBreak::No, t1)),
            Rc::new(next_group(d2, ShouldBreak::No, t2)),
        );
    }
}

/// Whether the inside of arguments nests always or only when an observed
/// document breaks, their flat text is the same.
proof fn lemma_args_flat<'a>(
    a: Args<'a>,
    c1: FormattingConfig,
    c2: FormattingConfig,
    r1: nat,
    r2: nat,
    o1: Option<usize>,
    o2: Option<usize>,
)
    requires
        c1.embracing_op_no_nl == c2.embracing_op_no_nl,
    ensures
        flat_alike(args_doc(a, c1, r1, o1).0, args_doc(a, c2, r2, o2).0),
    decreases a, 0nat,
{
    broadcast use group_flat;

    lemma_arg_list_flat(a.args@, a.args@.len(), c1, c2, r1, r2);
    let ds1 = arg_list_doc(a.args@, a.args@.len(), c1, r1).0;
    let ds2 = arg_list_doc(a.args@, a.args@.len(), c2, r2).0;
    if ds1.len() > 0 {
        lemma_reduce_flat(ds1, ds2, ds1.len());
        let inside1 = spec_cons(Doc::Break(""), reduce_with_breaks(ds1, ds1.len()));
        let inside2 = spec_cons(Doc::Break(""), reduce_with_breaks(ds2, ds2.len()));
        assert(flat_text(inside1) == flat_text(inside2));
    }
}

proof fn lemma_param_list_flat<'a>(
    args: Seq<Arg<'a>>,
    n: nat,
    c1: FormattingConfig,
    c2: FormattingConfig,
    r1: nat,
    r2: nat,
)
    requires
        c1.embracing_op_no_nl == c2.embracing_op_no_nl,
    ensures
        all_flat_alike(param_list_doc(args, n, c1, r1).0, param_list_doc(args, n, c2, r2).0),
    decreases args, n,
{
    broadcast use group_flat;

    if n > 0 && n <= args.len() {
        lemma_param_list_flat(args, (n - 1) as nat, c1, c2, r1, r2);
        let (ds1, s1) = param_list_doc(args, (n - 1) as nat, c1, r1);
        let (ds2, s2) = param_list_doc(args, (n - 1) as nat, c2, r2);
        lemma_opt_expr_flat(args[n - 1].0, c1, c2, s1, s2);
        let (v1, t1) = opt_expr_doc(args[n - 1].0, c1, s1);
        let (v2, t2) = opt_expr_doc(args[n - 1].0, c2, s2);
        let comma = match args[n - 1].1 {
            Some(c) => commented_token_doc(*c),
            None => Doc::Nil,
        };
        lemma_push_flat_alike(
            ds1,
            ds2,
            Rc::new(next_group(spec_cons(v1, comma), ShouldBreak::No, t1)),
            Rc::new(next_group(spec_cons(v2, comma), ShouldBreak::No, t2)),
        );
    }
}

/// The three layouts of function parameters print the same flat text: they
/// differ only in empty breaks and in nesting.
proof fn lemma_params_group_flat<'a>(
    a: Args<'a>,
    p1: Doc<'a>,
    p2: Doc<'a>,
    c1: FormattingConfig,
    c2: FormattingConfig,
)
    requires
        flat_text(p1) == flat_text(p2),
    ensures
        flat_text(params_group(a, p1, c1)) == flat_text(params_group(a, p2, c2)),
{
    broadcast use group_flat;

    reveal_strlit("");
    let l = flat_text(delimiter_doc(a.left_delimeter));
    let r = flat_text(delimiter_doc(a.right_delimeter));
    let e = Seq::<char>::empty();
    assert(""@ =~= e);
    assert((((l + e) + flat_text(p1)) + e) + r =~= (l + flat_text(p1)) + r);
    assert((((l + e) + flat_text(p2)) + e) + r =~= (l + flat_text(p2)) + r);
    assert(flat_text(params_group(a, p1, c1)) == (l + flat_text(p1)) + r);
    assert(flat_text(params_group(a, p2, c2)) == (l + flat_text(p2)) + r);
}

proof fn lemma_function_def_flat<'a>(
    f: FunctionDefinition<'a>,
    c1: FormattingConfig,
    c2: FormattingConfig,
    r1: nat,
    r2: nat,
)
    requires
        c1.embracing_op_no_nl == c2.embracing_op_no_nl,
    ensures
        flat_alike(function_def_doc(f, c1, r1).0, function_def_doc(f, c2, r2).0),
    decreases f, 0nat,
{
    broadcast use group_flat;

    lemma_param_list_flat(f.arguments.args@, f.arguments.args@.len(), c1, c2, r1, r2);
    let (ps1, s1) = param_list_doc(f.arguments.args@, f.arguments.args@.len(), c1, r1);
    let (ps2, s2) = param_list_doc(f.arguments.args@, f.arguments.args@.len(), c2, r2);
    lemma_join_flat(ps1, ps2);
    lemma_params_group_flat(
        f.arguments,
        spec_join_ungroupped(ps1, Doc::Nil),
        spec_join_ungroupped(ps2, Doc::Nil),
        c1,
        c2,
    );
    lemma_expr_flat(*f.body, c1, c2, s1 + 1, s2 + 1);
}

// ---------------------------------------------------------------------------
// Conditionals and loops
// ---------------------------------------------------------------------------
proof fn lemma_if_conditional_flat<'a>(
    c: IfConditional<'a>,
    c1: FormattingConfig,
    c2: FormattingConfig,
    r1: nat,
    r2: nat,
)
    requires
        c1.embracing_op_no_nl == c2.embracing_op_no_nl,
    ensures
        flat_alike(if_conditional_doc(c, c1, r1).0, if_conditional_doc(c, c2, r2).0),
    decreases c, 0nat,
{
    broadcast use group_flat;

    lemma_expr_flat(*c.condition, c1, c2, r1, r2);
    let s1 = expr_doc(*c.condition, c1, r1).1;
    let s2 = expr_doc(*c.condition, c2, r2).1;
    lemma_expr_flat(*c.body, c1, c2, s1 + 1, s2 + 1);
}

proof fn lemma_else_ifs_flat<'a>(
    es: Seq<ElseIfConditional<'a>>,
    n: nat,
    first1: Doc<'a>,
    first2: Doc<'a>,
    c1: FormattingConfig,
    c2: FormattingConfig,
    r1: nat,
    r2: nat,
)
    requires
        c1.embracing_op_no_nl == c2.embracing_op_no_nl,
        flat_alike(first1, first2),
    ensures
        flat_alike(else_ifs_doc(es, n, first1, c1, r1).0, else_ifs_doc(es, n, first2, c2, r2).0),
    decreases es, n,
{
    broadcast use group_flat;

    if n > 0 && n <= es.len() {
        lemma_else_ifs_flat(es, (n - 1) as nat, first1, first2, c1, c2, r1, r2);
        let s1 = else_ifs_doc(es, (n - 1) as nat, first1, c1, r1).1;
        let s2 = else_ifs_doc(es, (n - 1) as nat, first2, c2, r2).1;
        lemma_if_conditional_flat(es[n - 1].if_conditional, c1, c2, s1, s2);
    }
}

#[verifier::spinoff_prover]
proof fn lemma_if_flat<'a>(i: IfExpression<'a>, c1: FormattingConfig, c2: FormattingConfig, r1: nat, r2: nat)
    requires
        c1.embracing_op_no_nl == c2.embracing_op_no_nl,
    ensures
        flat_alike(if_doc(i, c1, r1).0, if_doc(i, c2, r2).0),
    decreases i, 0nat,
{
    broadcast use group_flat;

    lemma_if_conditional_flat(i.if_conditional, c1, c2, r1, r2);
    let (first1, s1) = if_conditional_doc(i.if_conditional, c1, r1);
    let (first2, s2) = if_conditional_doc(i.if_conditional, c2, r2);
    lemma_else_ifs_flat(i.else_ifs@, i.else_ifs@.len(), first1, first2, c1, c2, s1, s2);
    let t1 = else_ifs_doc(i.else_ifs@, i.else_ifs@.len(), first1, c1, s1).1;
    let t2 = else_ifs_doc(i.else_ifs@, i.else_ifs@.len(), first2, c2, s2).1;
    if let Some(t) = i.trailing_else {
        lemma_expr_flat(*t.body, c1, c2, t1, t2);
    }
}

proof fn lemma_while_flat<'a>(
    w: WhileExpression<'a>,
    c1: FormattingConfig,
    c2: FormattingConfig,
    r1: nat,
    r2: nat,
)
    requires
        c1.embracing_op_no_nl == c2.embracing_op_no_nl,
    ensures
        flat_alike(while_doc(w, c1, r1).0, while_doc(w, c2, r2).0),
    decreases w, 0nat,
{
    broadcast use group_flat;

    lemma_expr_flat(*w.condition, c1, c2, r1, r2);
    let s1 = expr_doc(*w.condition, c1, r1).1;
    let s2 = expr_doc(*w.condition, c2, r2).1;
    lemma_expr_flat(*w.body, c1, c2, s1, s2);
}

proof fn lemma_repeat_flat<'a>(
    rep: RepeatExpression<'a>,
    c1: FormattingConfig,
    c2: FormattingConfig,
    r1: nat,
    r2: nat,
)
    requires
        c1.embracing_op_no_nl == c2.embracing_op_no_nl,
    ensures
        flat_alike(repeat_doc(rep, c1, r1).0, repeat_doc(rep, c2, r2).0),
    decreases rep, 0nat,
{
    broadcast use group_flat;

    lemma_expr_flat(*rep.body, c1, c2, r1, r2);
}

proof fn lemma_call_flat<'a>(c: FunctionCall<'a>, c1: FormattingConfig, c2: FormattingConfig, r1: nat, r2: nat)
    requires
        c1.embracing_op_no_nl == c2.embracing_op_no_nl,
    ensures
        flat_alike(call_doc(c, c1, r1).0, call_doc(c, c2, r2).0),
    decreases c, 0nat,
{
    broadcast use group_flat;

    lemma_expr_flat(*c.function_ref, c1, c2, r1 + 1, r2 + 1);
    let s1 = expr_doc(*c.function_ref, c1, r1 + 1).1;
    let s2 = expr_doc(*c.function_ref, c2, r2 + 1).1;
    lemma_args_flat(c.args, c1, c2, s1, s2, Some((r1 + 1) as usize), Some((r2 + 1) as usize));
}

proof fn lemma_subset_flat<'a>(
    s: SubsetExpression<'a>,
    c1: FormattingConfig,
    c2: FormattingConfig,
    r1: nat,
    r2: nat,
)
    requires
        c1.embracing_op_no_nl == c2.embracing_op_no_nl,
    ensures
        flat_alike(subset_doc(s, c1, r1).0, subset_doc(s, c2, r2).0),
    decreases s, 0nat,
{
    broadcast use group_flat;

    lemma_expr_flat(*s.object_ref, c1, c2, r1, r2);
    let s1 = expr_doc(*s.object_ref, c1, r1).1;
    let s2 = expr_doc(*s.object_ref, c2, r2).1;
    lemma_args_flat(s.args, c1, c2, s1, s2, None, None);
}

proof fn lemma_for_flat<'a>(f: ForLoop<'a>, c1: FormattingConfig, c2: FormattingConfig, r1: nat, r2: nat)
    requires
        c1.embracing_op_no_nl == c2.embracing_op_no_nl,
    ensures
        flat_alike(for_doc(f, c1, r1).0, for_doc(f, c2, r2).0),
    decreases f, 0nat,
{
    broadcast use group_flat;

    lemma_expr_flat(*f.identifier, c1, c2, r1, r2);
    let s1 = expr_doc(*f.identifier, c1, r1).1;
    let s2 = expr_doc(*f.identifier, c2, r2).1;
    lemma_expr_flat(*f.collection, c1, c2, s1, s2);
    let t1 = expr_doc(*f.collection, c1, s1).1;
    let t2 = expr_doc(*f.collection, c2, s2).1;
    lemma_expr_flat(*f.body, c1, c2, t1 + 1, t2 + 1);
}

proof fn lemma_lambda_flat<'a>(l: Lambda<'a>, c1: FormattingConfig, c2: FormattingConfig, r1: nat, r2: nat)
    requires
        c1.embracing_op_no_nl == c2.embracing_op_no_nl,
    ensures
        flat_alike(lambda_doc(l, c1, r1).0, lambda_doc(l, c2, r2).0),
    decreases l, 0nat,
{
    broadcast use group_flat;

    lemma_args_flat(l.args, c1, c2, r1, r2, None, None);
    let s1 = args_doc(l.args, c1, r1, None).1;
    let s2 = args_doc(l.args, c2, r2, None).1;
    lemma_expr_flat(*l.body, c1, c2, s1, s2);
}

/// Arguments converted with a conditional nest print the same flat text as
/// arguments converted plainly.
pub proof fn law_conditional_nest_prints_the_same_flat<'a>(
    a: Args<'a>,
    cfg: FormattingConfig,
    r: nat,
    observed: usize,
)
    ensures
        flat_text(args_doc(a, cfg, r, Some(observed)).0) == flat_text(args_doc(a, cfg, r, None).0),
{
    lemma_args_flat(a, cfg, cfg, r, r, Some(observed), None);
}

} // verus!

verus! {

// ---------------------------------------------------------------------------
// The flat text of conditionals and loops, from the flat texts of their parts
// ---------------------------------------------------------------------------
/// The flat text of an expression, which no counter changes.
pub open spec fn expr_flat<'a>(e: Expression<'a>, cfg: FormattingConfig) -> Seq<char> {
    flat_text(expr_doc(e, cfg, 0).0)
}

/// The flat text of a token with its comments.
pub open spec fn token_flat<'a>(t: CommentedToken<'a>) -> Seq<char> {
    flat_text(commented_token_doc(t))
}

/// `if (condition) body`: the keyword, a space, the delimited condition, a
/// space and the body.
pub open spec fn if_conditional_flat<'a>(c: IfConditional<'a>, cfg: FormattingConfig) -> Seq<char> {
    token_flat(*c.keyword) + " "@ + token_flat(*c.left_delimiter) + expr_flat(*c.condition, cfg)
        + token_flat(*c.right_delimiter) + " "@ + expr_flat(*c.body, cfg)
}

/// The first `n` `else if` branches, each after a space, `else` and a space.
pub open spec fn else_ifs_flat<'a>(es: Seq<ElseIfConditional<'a>>, n: nat, cfg: FormattingConfig) -> Seq<
    char,
>
    decreases n,
{
    if n == 0 || n > es.len() {
        Seq::empty()
    } else {
        else_ifs_flat(es, (n - 1) as nat, cfg) + " "@ + token_flat(*es[n - 1].else_keyword) + " "@
            + if_conditional_flat(es[n - 1].if_conditional, cfg)
    }
}

/// The trailing `else`: a space, `else`, a space and the body.
pub open spec fn trailing_else_flat<'a>(e: Option<TrailingElse<'a>>, cfg: FormattingConfig) -> Seq<
    char,
> {
    match e {
        Some(t) => " "@ + token_flat(*t.else_keyword) + " "@ + expr_flat(*t.body, cfg),
        None => Seq::empty(),
    }
}

proof fn lemma_expr_flat_any_counter<'a>(e: Expression<'a>, cfg: FormattingConfig, r: nat)
    ensures
        flat_text(expr_doc(e, cfg, r).0) == expr_flat(e, cfg),
{
    lemma_expr_flat(e, cfg, cfg, r, 0);
}

proof fn lemma_if_conditional_flat_text<'a>(c: IfConditional<'a>, cfg: FormattingConfig, r: nat)
    ensures
        flat_text(if_conditional_doc(c, cfg, r).0) == if_conditional_flat(c, cfg),
{
    broadcast use group_flat;

    reveal_strlit("");
    lemma_expr_flat_any_counter(*c.condition, cfg, r);
    let r1 = expr_doc(*c.condition, cfg, r).1;
    lemma_expr_flat_any_counter(*c.body, cfg, r1 + 1);
    let (k, l, x, d, b) = (
        token_flat(*c.keyword),
        token_flat(*c.left_delimiter),
        expr_flat(*c.condition, cfg),
        token_flat(*c.right_delimiter),
        expr_flat(*c.body, cfg),
    );
    let e = Seq::<char>::empty();
    assert(""@ =~= e);
    assert(k + " "@ + (((l + e) + x) + e + d) + " "@ + b =~= k + " "@ + l + x + d + " "@ + b);
}

proof fn lemma_else_ifs_flat_text<'a>(
    es: Seq<ElseIfConditional<'a>>,
    n: nat,
    first: Doc<'a>,
    cfg: FormattingConfig,
    r: nat,
)
    ensures
        flat_text(else_ifs_doc(es, n, first, cfg, r).0) == flat_text(first) + else_ifs_flat(es, n, cfg),
    decreases n,
{
    broadcast use group_flat;

    if n == 0 || n > es.len() {
        assert(flat_text(first) + Seq::<char>::empty() =~= flat_text(first));
    } else {
        lemma_else_ifs_flat_text(es, (n - 1) as nat, first, cfg, r);
        let r1 = else_ifs_doc(es, (n - 1) as nat, first, cfg, r).1;
        lemma_if_conditional_flat_text(es[n - 1].if_conditional, cfg, r1);
        let (f, p, k, c) = (
            flat_text(first),
            else_ifs_flat(es, (n - 1) as nat, cfg),
            token_flat(*es[n - 1].else_keyword),
            if_conditional_flat(es[n - 1].if_conditional, cfg),
        );
        assert((f + p) + " "@ + k + " "@ + c =~= f + (p + " "@ + k + " "@ + c));
    }
}

/// The flat text of an `if` chain: the `if` branch, then each `else if`
/// branch and the trailing `else`, each after exactly one space, `else` and
/// one space, whatever the counter.
pub proof fn law_if_flat_text<'a>(i: IfExpression<'a>, cfg: FormattingConfig, r: nat)
    ensures
        flat_text(if_doc(i, cfg, r).0) == if_conditional_flat(i.if_conditional, cfg) + else_ifs_flat(
            i.else_ifs@,
            i.else_ifs@.len(),
            cfg,
        ) + trailing_else_flat(i.trailing_else, cfg),
{
    broadcast use group_flat;

    lemma_if_conditional_flat_text(i.if_conditional, cfg, r);
    let (first, r1) = if_conditional_doc(i.if_conditional, cfg, r);
    let n = i.else_ifs@.len();
    lemma_else_ifs_flat_text(i.else_ifs@, n, first, cfg, r1);
    let (d, r2) = else_ifs_doc(i.else_ifs@, n, first, cfg, r1);
    let c = if_conditional_flat(i.if_conditional, cfg);
    let m = else_ifs_flat(i.else_ifs@, n, cfg);
    match i.trailing_else {
        Some(t) => {
            lemma_expr_flat_any_counter(*t.body, cfg, r2);
            let k = token_flat(*t.else_keyword);
            let b = expr_flat(*t.body, cfg);
            assert((c + m) + " "@ + k + " "@ + b =~= c + m + (" "@ + k + " "@ + b));
        },
        None => {
            assert(c + m + Seq::<char>::empty() =~= c + m);
        },
    }
}

/// The flat text of a `for` loop: `for`, a space, the opening delimiter, the
/// identifier, a space, `in`, a space, the collection, the closing delimiter,
/// a space and the body.
pub proof fn law_for_flat_text<'a>(f: ForLoop<'a>, cfg: FormattingConfig, r: nat)
    ensures
        flat_text(for_doc(f, cfg, r).0) == token_flat(*f.keyword) + " "@ + token_flat(*f.left_delim)
            + expr_flat(*f.identifier, cfg) + " "@ + token_flat(*f.in_keyword) + " "@ + expr_flat(
            *f.collection,
            cfg,
        ) + token_flat(*f.right_delim) + " "@ + expr_flat(*f.body, cfg),
{
    broadcast use group_flat;

    reveal_strlit("");
    lemma_expr_flat_any_counter(*f.identifier, cfg, r);
    let r1 = expr_doc(*f.identifier, cfg, r).1;
    lemma_expr_flat_any_counter(*f.collection, cfg, r1);
    let r2 = expr_doc(*f.collection, cfg, r1).1;
    lemma_expr_flat_any_counter(*f.body, cfg, r2 + 1);
    let (k, l, x, n, c, d, b) = (
        token_flat(*f.keyword),
        token_flat(*f.left_delim),
        expr_flat(*f.identifier, cfg),
        token_flat(*f.in_keyword),
        expr_flat(*f.collection, cfg),
        token_flat(*f.right_delim),
        expr_flat(*f.body, cfg),
    );
    let e = Seq::<char>::empty();
    let s = " "@;
    assert(""@ =~= e);
    assert((k + (((((((s + l) + e) + x) + s) + n) + s) + c) + e) + d + s + b =~= k + s + l + x + s
        + n + s + c + d + s + b);
}

/// The flat text of a `while` loop: `while`, a space, the condition, a space
/// and the body.
pub proof fn law_while_flat_text<'a>(w: WhileExpression<'a>, cfg: FormattingConfig, r: nat)
    ensures
        flat_text(while_doc(w, cfg, r).0) == token_flat(*w.while_keyword) + " "@ + expr_flat(
            *w.condition,
            cfg,
        ) + " "@ + expr_flat(*w.body, cfg),
{
    broadcast use group_flat;

    lemma_expr_flat_any_counter(*w.condition, cfg, r);
    lemma_expr_flat_any_counter(*w.body, cfg, expr_doc(*w.condition, cfg, r).1);
}

/// The flat text of a `repeat` loop: `repeat` directly followed by its body.
pub proof fn law_repeat_flat_text<'a>(rep: RepeatExpression<'a>, cfg: FormattingConfig, r: nat)
    ensures
        flat_text(repeat_doc(rep, cfg, r).0) == token_flat(*rep.repeat_keyword) + expr_flat(
            *rep.body,
            cfg,
        ),
{
    broadcast use group_flat;

    lemma_expr_flat_any_counter(*rep.body, cfg, r);
}

/// The flat text of a lambda: the keyword, its arguments, a space and the
/// body.
pub proof fn law_lambda_flat_text<'a>(l: Lambda<'a>, cfg: FormattingConfig, r: nat)
    ensures
        flat_text(lambda_doc(l, cfg, r).0) == token_flat(*l.keyword) + flat_text(
            args_doc(l.args, cfg, 0, None).0,
        ) + " "@ + expr_flat(*l.body, cfg),
{
    broadcast use group_flat;

    lemma_args_flat(l.args, cfg, cfg, r, 0, None, None);
    lemma_expr_flat_any_counter(*l.body, cfg, args_doc(l.args, cfg, r, None).1);
}

} // verus!

verus! {

// ---------------------------------------------------------------------------
// The flat text of arguments, calls, definitions and operators
// ---------------------------------------------------------------------------
/// An argument: its value (nothing when it has none), then its comma.
pub open spec fn arg_flat<'a>(a: Arg<'a>, cfg: FormattingConfig) -> Seq<char> {
    let value = match a.0 {
        Some(e) => expr_flat(e, cfg),
        None => Seq::empty(),
    };
    let comma = match a.1 {
        Some(c) => token_flat(*c),
        None => Seq::empty(),
    };
    value + comma
}

/// The first `n` arguments with one space between each two.
pub open spec fn arg_list_flat<'a>(args: Seq<Arg<'a>>, n: nat, cfg: FormattingConfig) -> Seq<char>
    decreases n,
{
    if n == 0 {
        Seq::empty()
    } else if n == 1 {
        arg_flat(args[0], cfg)
    } else {
        arg_list_flat(args, (n - 1) as nat, cfg) + " "@ + arg_flat(args[n - 1], cfg)
    }
}

/// Arguments between their delimiters.
pub open spec fn args_flat<'a>(a: Args<'a>, cfg: FormattingConfig) -> Seq<char> {
    flat_text(delimiter_doc(a.left_delimeter)) + arg_list_flat(a.args@, a.args@.len(), cfg)
        + flat_text(delimiter_doc(a.right_delimeter))
}

/// The documents of a list of arguments, one per argument, none of them `Nil`,
/// each printing its argument.
pub open spec fn docs_print_args<'a>(
    ds: Seq<Rc<Doc<'a>>>,
    args: Seq<Arg<'a>>,
    n: nat,
    cfg: FormattingConfig,
) -> bool {
    &&& ds.len() == n
    &&& forall|i: int|
        0 <= i < n ==> #[trigger] flat_text(*ds[i]) == arg_flat(args[i], cfg) && !(*ds[i] is Nil)
}

proof fn lemma_opt_expr_flat_text<'a>(e: Option<Expression<'a>>, cfg: FormattingConfig, r: nat)
    ensures
        flat_text(opt_expr_doc(e, cfg, r).0) == (match e {
            Some(x) => expr_flat(x, cfg),
            None => Seq::<char>::empty(),
        }),
{
    reveal_strlit("");
    assert(""@ =~= Seq::<char>::empty());
    if let Some(x) = e {
        lemma_expr_flat_any_counter(x, cfg, r);
    }
}

proof fn lemma_push_prints<'a>(
    ds: Seq<Rc<Doc<'a>>>,
    args: Seq<Arg<'a>>,
    n: nat,
    cfg: FormattingConfig,
    x: Rc<Doc<'a>>,
)
    requires
        docs_print_args(ds, args, n, cfg),
        flat_text(*x) == arg_flat(args[n as int], cfg),
        !(*x is Nil),
    ensures
        docs_print_args(ds.push(x), args, n + 1, cfg),
{
    assert forall|i: int| 0 <= i < n + 1 implies #[trigger] flat_text(*ds.push(x)[i]) == arg_flat(
        args[i],
        cfg,
    ) && !(*ds.push(x)[i] is Nil) by {
        if i < n {
            assert(ds.push(x)[i] == ds[i]);
        }
    }
}

proof fn lemma_arg_list_doc_prints<'a>(args: Seq<Arg<'a>>, n: nat, cfg: FormattingConfig, r: nat)
    requires
        n <= args.len(),
    ensures
        docs_print_args(arg_list_doc(args, n, cfg, r).0, args, n, cfg),
    decreases n,
{
    broadcast use group_flat;

    if n > 0 {
        lemma_arg_list_doc_prints(args, (n - 1) as nat, cfg, r);
        let (ds, r1) = arg_list_doc(args, (n - 1) as nat, cfg, r);
        lemma_opt_expr_flat_text(args[n - 1].0, cfg, r1);
        let (d, r2) = arg_doc(args[n - 1], cfg, r1);
        if args[n - 1].1 is None {
            assert(arg_flat(args[n - 1], cfg) =~= flat_text(opt_expr_doc(args[n - 1].0, cfg, r1).0));
        }
        lemma_push_prints(ds, args, (n - 1) as nat, cfg, Rc::new(next_group(d, ShouldBreak::No, r2)));
    }
}

proof fn lemma_param_list_doc_prints<'a>(args: Seq<Arg<'a>>, n: nat, cfg: FormattingConfig, r: nat)
    requires
        n <= args.len(),
    ensures
        docs_print_args(param_list_doc(args, n, cfg, r).0, args, n, cfg),
    decreases n,
{
    broadcast use group_flat;

    if n > 0 {
        lemma_param_list_doc_prints(args, (n - 1) as nat, cfg, r);
        let (ds, r1) = param_list_doc(args, (n - 1) as nat, cfg, r);
        lemma_opt_expr_flat_text(args[n - 1].0, cfg, r1);
        let (v, r2) = opt_expr_doc(args[n - 1].0, cfg, r1);
        let comma = match args[n - 1].1 {
            Some(c) => commented_token_doc(*c),
            None => Doc::Nil,
        };
        assert(flat_text(spec_cons(v, comma)) =~= arg_flat(args[n - 1], cfg));
        lemma_push_prints(
            ds,
            args,
            (n - 1) as nat,
            cfg,
            Rc::new(next_group(spec_cons(v, comma), ShouldBreak::No, r2)),
        );
    }
}

proof fn lemma_reduce_prints<'a>(ds: Seq<Rc<Doc<'a>>>, args: Seq<Arg<'a>>, n: nat, m: nat, cfg: FormattingConfig)
    requires
        docs_print_args(ds, args, n, cfg),
        1 <= m <= n <= args.len(),
    ensures
        flat_text(reduce_with_breaks(ds, m)) == arg_list_flat(args, m, cfg),
    decreases m,
{
    broadcast use group_flat;

    assert(flat_text(*ds[m - 1]) == arg_flat(args[m - 1], cfg));
    if m > 1 {
        lemma_reduce_prints(ds, args, n, (m - 1) as nat, cfg);
    }
}

proof fn lemma_join_prefix_prints<'a>(
    ds: Seq<Rc<Doc<'a>>>,
    args: Seq<Arg<'a>>,
    n: nat,
    m: nat,
    cfg: FormattingConfig,
)
    requires
        docs_print_args(ds, args, n, cfg),
        m <= n <= args.len(),
    ensures
        flat_text(join_prefix(ds, Doc::Nil, m)) == arg_list_flat(args, m, cfg),
        m > 0 ==> !(join_prefix(ds, Doc::Nil, m) is Nil),
    decreases m,
{
    broadcast use group_flat;

    let e = Seq::<char>::empty();
    if m == 1 {
        assert(flat_text(*ds[0]) == arg_flat(args[0], cfg) && !(*ds[0] is Nil));
        assert(e + arg_flat(args[0], cfg) =~= arg_flat(args[0], cfg));
    } else if m > 1 {
        let k: int = m - 1;
        assert(flat_text(*ds[k]) == arg_flat(args[k], cfg));
        assert(!(*ds[k] is Nil));
        lemma_join_prefix_prints(ds, args, n, (m - 1) as nat, cfg);
        let p = arg_list_flat(args, (m - 1) as nat, cfg);
        assert(p + e + " "@ + arg_flat(args[m - 1], cfg) =~= p + " "@ + arg_flat(args[m - 1], cfg));
    }
}

/// The flat text of arguments: the left delimiter, the arguments with one
/// space between each two, the right delimiter; the same whether or not the
/// inside nests conditionally, and from every counter.
pub proof fn law_args_flat_text<'a>(a: Args<'a>, cfg: FormattingConfig, r: nat, observed: Option<usize>)
    ensures
        flat_text(args_doc(a, cfg, r, observed).0) == args_flat(a, cfg),
{
    broadcast use group_flat;

    reveal_strlit("");
    let n = a.args@.len();
    lemma_arg_list_doc_prints(a.args@, n, cfg, r);
    let ds = arg_list_doc(a.args@, n, cfg, r).0;
    let (l, q) = (flat_text(delimiter_doc(a.left_delimeter)), flat_text(delimiter_doc(a.right_delimeter)));
    let e = Seq::<char>::empty();
    assert(""@ =~= e);
    if n > 0 {
        lemma_reduce_prints(ds, a.args@, n, n, cfg);
        let x = arg_list_flat(a.args@, n, cfg);
        assert(l + (e + x) + e + q =~= l + x + q);
    } else {
        assert(l + e + q =~= l + q);
    }
}

/// The flat text of a call: the function, then its arguments.
pub proof fn law_call_flat_text<'a>(c: FunctionCall<'a>, cfg: FormattingConfig, r: nat)
    ensures
        flat_text(call_doc(c, cfg, r).0) == expr_flat(*c.function_ref, cfg) + args_flat(c.args, cfg),
{
    broadcast use group_flat;

    lemma_expr_flat_any_counter(*c.function_ref, cfg, r + 1);
    let r1 = expr_doc(*c.function_ref, cfg, r + 1).1;
    law_args_flat_text(c.args, cfg, r1, Some((r + 1) as usize));
}

/// The flat text of a subset: the object, then its arguments.
pub proof fn law_subset_flat_text<'a>(s: SubsetExpression<'a>, cfg: FormattingConfig, r: nat)
    ensures
        flat_text(subset_doc(s, cfg, r).0) == expr_flat(*s.object_ref, cfg) + args_flat(s.args, cfg),
{
    broadcast use group_flat;

    lemma_expr_flat_any_counter(*s.object_ref, cfg, r);
    law_args_flat_text(s.args, cfg, expr_doc(*s.object_ref, cfg, r).1, None);
}

/// The flat text of a function definition: the keyword, the parameters
/// between their delimiters with one space between each two, a space and the
/// body, whatever the layout of the parameters.
pub proof fn law_function_def_flat_text<'a>(f: FunctionDefinition<'a>, cfg: FormattingConfig, r: nat)
    ensures
        flat_text(function_def_doc(f, cfg, r).0) == token_flat(*f.keyword) + args_flat(
            f.arguments,
            cfg,
        ) + " "@ + expr_flat(*f.body, cfg),
{
    broadcast use group_flat;

    reveal_strlit("");
    let n = f.arguments.args@.len();
    lemma_param_list_doc_prints(f.arguments.args@, n, cfg, r);
    let (ps, r1) = param_list_doc(f.arguments.args@, n, cfg, r);
    lemma_join_prefix_prints(ps, f.arguments.args@, n, n, cfg);
    let params = spec_join_ungroupped(ps, Doc::Nil);
    let e = Seq::<char>::empty();
    assert(""@ =~= e);
    let x = arg_list_flat(f.arguments.args@, n, cfg);
    if n == 0 {
        assert(e + e =~= e);
    }
    assert(flat_text(params) == x);
    let (l, q) = (
        flat_text(delimiter_doc(f.arguments.left_delimeter)),
        flat_text(delimiter_doc(f.arguments.right_delimeter)),
    );
    assert((((l + e) + x) + e) + q =~= (l + x) + q);
    assert(flat_text(params_group(f.arguments, params, cfg)) == l + x + q);
    lemma_expr_flat_any_counter(*f.body, cfg, r1 + 1);
}

} // verus!

verus! {

/// The flat text of operators: a spaced binary operator has one space on each
/// side, any other binary operator none; a unary operator comes right before
/// its operand; a formula's `~` is followed by a space unless its operand is
/// a symbol.
pub proof fn law_operator_flat_text<'a>(e: Expression<'a>, cfg: FormattingConfig, r: nat)
    ensures
        e matches Expression::Bop(op, lhs, rhs) ==> flat_text(expr_doc(e, cfg, r).0) == (if is_spaced_operator(op.token) {
            expr_flat(*lhs, cfg) + " "@ + token_flat(*op) + " "@ + expr_flat(*rhs, cfg)
        } else {
            expr_flat(*lhs, cfg) + token_flat(*op) + expr_flat(*rhs, cfg)
        }),
        e matches Expression::Unary(op, x) ==> flat_text(expr_doc(e, cfg, r).0) == token_flat(*op)
            + expr_flat(*x, cfg),
        e matches Expression::Formula(op, x) ==> flat_text(expr_doc(e, cfg, r).0) == token_flat(*op)
            + (if *x is Symbol {
            Seq::<char>::empty()
        } else {
            " "@
        }) + expr_flat(*x, cfg),
{
    broadcast use group_flat;

    reveal_strlit("");
    assert(""@ =~= Seq::<char>::empty());
    match e {
        Expression::Bop(op, lhs, rhs) => {
            lemma_expr_flat_any_counter(*lhs, cfg, r);
            let r1 = expr_doc(*lhs, cfg, r).1;
            lemma_expr_flat_any_counter(*rhs, cfg, r1);
            let (l, o, x) = (expr_flat(*lhs, cfg), token_flat(*op), expr_flat(*rhs, cfg));
            assert(l + " "@ + o + (" "@ + x) =~= l + " "@ + o + " "@ + x);
        },
        Expression::Unary(_, x) => {
            lemma_expr_flat_any_counter(*x, cfg, r);
        },
        Expression::Formula(op, x) => {
            lemma_expr_flat_any_counter(*x, cfg, r);
            let (o, y) = (token_flat(*op), expr_flat(*x, cfg));
            assert(o + Seq::<char>::empty() + y =~= o + y);
        },
        _ => {},
    }
}

} // verus!
