//! Which groups are forced to break. A document lays out flat wherever it fits
//! the line unless one of its groups must break; such groups come only from
//! blocks in braces, from sequences of expressions outside delimiters, from
//! leading comments, and from arguments with a closure before the last one.
use crate::ast::{
    Arg, Args, Delimiter, ElseIfConditional, Expression, ForLoop, FunctionCall, FunctionDefinition,
    IfConditional, IfExpression, Lambda, RepeatExpression, SubsetExpression, TermExpr,
    TrailingElse, WhileExpression,
};
use crate::config::FormattingConfig;
use crate::doc::{
    spec_cons, spec_group, spec_nest, spec_nest_hanging, spec_nest_if_break, spec_text, Doc,
    InlineCommentPosition, ShouldBreak,
};
use crate::doc_rules::{
    arg_contains_closure, arg_doc, arg_list_doc, args_doc, bop_doc, call_doc, commented_token_doc,
    delimiter_doc, else_ifs_doc, expr_doc, exprs_doc, for_doc, function_def_doc,
    if_conditional_doc, if_doc, is_embracing_term, join_prefix, lambda_doc,
    law_no_closure_before_last_keeps_args, next_group, opt_expr_doc, param_list_doc,
    params_group, reduce_with_breaks, repeat_doc, spec_join_ungroupped, subset_doc, term_doc,
    token_doc, while_doc,
};
use crate::tokens::CommentedToken;
use std::rc::Rc;
use vstd::prelude::*;

verus! {

/// No group of the document is forced to break.
pub open spec fn no_forced_break<'a>(d: Doc<'a>) -> bool
    decreases d,
{
    match d {
        Doc::Nil | Doc::Text(..) | Doc::Break(_) => true,
        Doc::Cons(a, b, _) => no_forced_break(*a) && no_forced_break(*b),
        Doc::Nest(_, x, _) => no_forced_break(*x),
        Doc::NestIfBreak(_, x, _, _) => no_forced_break(*x),
        Doc::NestHanging(x, _) => no_forced_break(*x),
        Doc::Group(g, _) => g.1 is No && no_forced_break(*g.0),
    }
}

/// A token without leading comments.
pub open spec fn token_stays_flat(t: CommentedToken) -> bool {
    t.leading_comments is None
}

pub open spec fn delimiter_stays_flat(d: Delimiter) -> bool {
    match d {
        Delimiter::Paren(t) => token_stays_flat(*t),
        Delimiter::SingleBracket(t) => token_stays_flat(*t),
        Delimiter::DoubleBracket((t1, t2)) => token_stays_flat(*t1) && token_stays_flat(*t2),
    }
}

/// No argument but possibly the last contains a closure.
pub open spec fn no_closure_before_last(a: Args) -> bool {
    forall|i: int| 0 <= i < a.args@.len() - 1 ==> !arg_contains_closure(#[trigger] a.args@[i])
}

/// An expression with no block in braces, no sequence of expressions outside
/// delimiters, no leading comment and no call or subset with a closure before
/// its last argument.
pub open spec fn stays_flat(e: Expression) -> bool
    decreases e, 0nat,
{
    match e {
        Expression::Symbol(t) | Expression::Literal(t) | Expression::Comment(t)
        | Expression::Continue(t) | Expression::Break(t) | Expression::EOF(t) => token_stays_flat(*t),
        Expression::Newline(_) | Expression::Whitespace(_) => true,
        Expression::Term(t) => term_stays_flat(*t),
        Expression::Unary(op, x) => token_stays_flat(*op) && stays_flat(*x),
        Expression::Formula(op, x) => token_stays_flat(*op) && stays_flat(*x),
        Expression::Bop(op, l, r) => token_stays_flat(*op) && stays_flat(*l) && stays_flat(*r),
        Expression::FunctionDef(f) => token_stays_flat(*f.keyword) && args_stay_flat(f.arguments)
            && stays_flat(*f.body),
        Expression::LambdaFunction(l) => token_stays_flat(*l.keyword) && args_stay_flat(l.args)
            && stays_flat(*l.body),
        Expression::IfExpression(i) => if_conditional_stays_flat(i.if_conditional)
            && else_ifs_stay_flat(i.else_ifs@, i.else_ifs@.len()) && trailing_else_stays_flat(
            i.trailing_else,
        ),
        Expression::WhileExpression(w) => token_stays_flat(*w.while_keyword) && stays_flat(
            *w.condition,
        ) && stays_flat(*w.body),
        Expression::RepeatExpression(r) => token_stays_flat(*r.repeat_keyword) && stays_flat(*r.body),
        Expression::FunctionCall(c) => stays_flat(*c.function_ref) && args_stay_flat(c.args)
            && no_closure_before_last(c.args),
        Expression::SubsetExpression(s) => stays_flat(*s.object_ref) && args_stay_flat(s.args)
            && no_closure_before_last(s.args),
        Expression::ForLoopExpression(f) => token_stays_flat(*f.keyword) && token_stays_flat(
            *f.left_delim,
        ) && stays_flat(*f.identifier) && token_stays_flat(*f.in_keyword) && stays_flat(
            *f.collection,
        ) && token_stays_flat(*f.right_delim) && stays_flat(*f.body),
    }
}

/// A term between delimiters other than braces.
pub open spec fn term_stays_flat(t: TermExpr) -> bool
    decreases t, 0nat,
{
    &&& t.pre_delimiters matches Some(pre)
    &&& !(pre.token is LBrace)
    &&& token_stays_flat(*pre)
    &&& t.post_delimiters matches Some(post)
    &&& token_stays_flat(*post)
    &&& exprs_stay_flat(t.term@, t.term@.len())
}

/// The first `n` expressions.
pub open spec fn exprs_stay_flat(es: Seq<Expression>, n: nat) -> bool
    decreases es, n,
{
    if n == 0 || n > es.len() {
        true
    } else {
        exprs_stay_flat(es, (n - 1) as nat) && stays_flat(es[n - 1])
    }
}

pub open spec fn arg_stays_flat(a: Arg) -> bool
    decreases a, 0nat,
{
    &&& a.0 matches Some(e) ==> stays_flat(e)
    &&& a.1 matches Some(c) ==> token_stays_flat(*c)
}

/// The first `n` arguments.
pub open spec fn arg_list_stays_flat(args: Seq<Arg>, n: nat) -> bool
    decreases args, n,
{
    if n == 0 || n > args.len() {
        true
    } else {
        arg_list_stays_flat(args, (n - 1) as nat) && arg_stays_flat(args[n - 1])
    }
}

pub open spec fn args_stay_flat(a: Args) -> bool
    decreases a, 0nat,
{
    delimiter_stays_flat(a.left_delimeter) && delimiter_stays_flat(a.right_delimeter)
        && arg_list_stays_flat(a.args@, a.args@.len())
}

pub open spec fn if_conditional_stays_flat(c: IfConditional) -> bool
    decreases c, 0nat,
{
    token_stays_flat(*c.keyword) && token_stays_flat(*c.left_delimiter) && stays_flat(*c.condition)
        && token_stays_flat(*c.right_delimiter) && stays_flat(*c.body)
}

/// The first `n` `else if` branches.
pub open spec fn else_ifs_stay_flat(es: Seq<ElseIfConditional>, n: nat) -> bool
    decreases es, n,
{
    if n == 0 || n > es.len() {
        true
    } else {
        else_ifs_stay_flat(es, (n - 1) as nat) && token_stays_flat(*es[n - 1].else_keyword)
            && if_conditional_stays_flat(es[n - 1].if_conditional)
    }
}

pub open spec fn trailing_else_stays_flat(e: Option<TrailingElse>) -> bool
    decreases e, 0nat,
{
    e matches Some(t) ==> token_stays_flat(*t.else_keyword) && stays_flat(*t.body)
}

/// Every document of the list has no forced break.
pub open spec fn all_no_forced_break<'a>(ds: Seq<Rc<Doc<'a>>>) -> bool {
    forall|i: int| 0 <= i < ds.len() ==> #[trigger] no_forced_break(*ds[i])
}

pub broadcast proof fn lemma_nfb_cons<'a>(a: Doc<'a>, b: Doc<'a>)
    ensures
        #[trigger] no_forced_break(spec_cons(a, b)) == (no_forced_break(a) && no_forced_break(b)),
{
}

pub broadcast proof fn lemma_nfb_group<'a>(d: Doc<'a>, sb: ShouldBreak, r: usize)
    ensures
        #[trigger] no_forced_break(spec_group(d, sb, r)) == (sb is No && no_forced_break(d)),
{
}

pub broadcast proof fn lemma_nfb_nest<'a>(d: Doc<'a>, indent: i32)
    ensures
        #[trigger] no_forced_break(spec_nest(d, indent)) == no_forced_break(d),
{
}

pub broadcast proof fn lemma_nfb_nest_if_break<'a>(d: Doc<'a>, indent: i32, o: usize)
    ensures
        #[trigger] no_forced_break(spec_nest_if_break(d, indent, o)) == no_forced_break(d),
{
}

pub broadcast proof fn lemma_nfb_nest_hanging<'a>(d: Doc<'a>)
    ensures
        #[trigger] no_forced_break(spec_nest_hanging(d)) == no_forced_break(d),
{
}

pub broadcast proof fn lemma_nfb_text<'a>(s: &'a str, size: usize, p: InlineCommentPosition)
    ensures
        #[trigger] no_forced_break(spec_text(s, size, p)),
{
}

pub broadcast group group_nfb {
    lemma_nfb_cons,
    lemma_nfb_group,
    lemma_nfb_nest,
    lemma_nfb_nest_if_break,
    lemma_nfb_nest_hanging,
    lemma_nfb_text,
}

// ---------------------------------------------------------------------------
// Tokens and lists
// ---------------------------------------------------------------------------
proof fn lemma_token_nfb<'a>(t: CommentedToken<'a>)
    requires
        token_stays_flat(t),
    ensures
        no_forced_break(commented_token_doc(t)),
{
    broadcast use group_nfb;

    reveal(commented_token_doc);
    reveal(token_doc);
}

proof fn lemma_opt_token_nfb<'a>(t: Option<&'a CommentedToken<'a>>)
    requires
        t matches Some(c) ==> token_stays_flat(*c),
    ensures
        no_forced_break(
            match t {
                Some(c) => commented_token_doc(*c),
                None => Doc::Nil,
            },
        ),
{
    if let Some(c) = t {
        lemma_token_nfb(*c);
    }
}

proof fn lemma_delimiter_nfb<'a>(d: Delimiter<'a>)
    requires
        delimiter_stays_flat(d),
    ensures
        no_forced_break(delimiter_doc(d)),
{
    broadcast use group_nfb;

    reveal(delimiter_doc);
    match d {
        Delimiter::Paren(t) => lemma_token_nfb(*t),
        Delimiter::SingleBracket(t) => lemma_token_nfb(*t),
        Delimiter::DoubleBracket((t1, t2)) => {
            lemma_token_nfb(*t1);
            lemma_token_nfb(*t2);
        },
    }
}

proof fn lemma_push_nfb<'a>(ds: Seq<Rc<Doc<'a>>>, x: Rc<Doc<'a>>)
    requires
        all_no_forced_break(ds),
        no_forced_break(*x),
    ensures
        all_no_forced_break(ds.push(x)),
{
    assert forall|i: int| 0 <= i < ds.push(x).len() implies #[trigger] no_forced_break(
        *ds.push(x)[i],
    ) by {
        if i < ds.len() {
            assert(ds.push(x)[i] == ds[i]);
        }
    }
}

proof fn lemma_join_prefix_nfb<'a>(ds: Seq<Rc<Doc<'a>>>, n: nat)
    requires
        all_no_forced_break(ds),
        n <= ds.len(),
    ensures
        no_forced_break(join_prefix(ds, Doc::Nil, n)),
    decreases n,
{
    broadcast use group_nfb;

    if n == 1 {
        assert(no_forced_break(*ds[0]));
    } else if n > 1 {
        lemma_join_prefix_nfb(ds, (n - 1) as nat);
        assert(no_forced_break(*ds[n - 1]));
    }
}

proof fn lemma_join_nfb<'a>(ds: Seq<Rc<Doc<'a>>>)
    requires
        all_no_forced_break(ds),
    ensures
        no_forced_break(spec_join_ungroupped(ds, Doc::Nil)),
{
    broadcast use group_nfb;

    lemma_join_prefix_nfb(ds, ds.len());
}

proof fn lemma_reduce_nfb<'a>(ds: Seq<Rc<Doc<'a>>>, n: nat)
    requires
        all_no_forced_break(ds),
        1 <= n <= ds.len(),
    ensures
        no_forced_break(reduce_with_breaks(ds, n)),
    decreases n,
{
    broadcast use group_nfb;

    assert(no_forced_break(*ds[n - 1]));
    if n > 1 {
        lemma_reduce_nfb(ds, (n - 1) as nat);
    }
}

// ---------------------------------------------------------------------------
// Expressions
// ---------------------------------------------------------------------------
/// Only blocks in braces, sequences of expressions outside delimiters, leading
/// comments and closures before the last argument force a group to break: the
/// document of an expression that has none of them has no group that must
/// break, so it lays out on one line wherever it fits. In particular the
/// parameters of a function definition and a term in parentheses or brackets
/// are never forced to break.
pub proof fn law_only_blocks_comments_and_closures_force_breaks<'a>(
    e: Expression<'a>,
    cfg: FormattingConfig,
    r: nat,
)
    requires
        stays_flat(e),
    ensures
        no_forced_break(expr_doc(e, cfg, r).0),
{
    lemma_expr_nfb(e, cfg, r);
}

proof fn lemma_expr_nfb<'a>(e: Expression<'a>, cfg: FormattingConfig, r: nat)
    requires
        stays_flat(e),
    ensures
        no_forced_break(expr_doc(e, cfg, r).0),
    decreases e, 0nat,
{
    broadcast use group_nfb;

    match e {
        Expression::Symbol(t) | Expression::Literal(t) | Expression::Comment(t)
        | Expression::Continue(t) | Expression::Break(t) | Expression::EOF(t) => lemma_token_nfb(*t),
        Expression::Term(t) => lemma_term_nfb(*t, cfg, r),
        Expression::Unary(op, x) => {
            lemma_token_nfb(*op);
            lemma_expr_nfb(*x, cfg, r);
        },
        Expression::Formula(op, x) => {
            lemma_token_nfb(*op);
            lemma_expr_nfb(*x, cfg, r);
        },
        Expression::Bop(op, lhs, rhs) => {
            lemma_token_nfb(*op);
            lemma_expr_nfb(*lhs, cfg, r);
            let (ld, r1) = expr_doc(*lhs, cfg, r);
            lemma_expr_nfb(*rhs, cfg, r1);
            let (rd, r2) = expr_doc(*rhs, cfg, r1);
            assert(no_forced_break(bop_doc(*op, ld, rd, cfg, r2).0));
        },
        Expression::FunctionDef(f) => lemma_function_def_nfb(f, cfg, r),
        Expression::IfExpression(i) => lemma_if_nfb(i, cfg, r),
        Expression::WhileExpression(w) => lemma_while_nfb(w, cfg, r),
        Expression::RepeatExpression(rep) => lemma_repeat_nfb(rep, cfg, r),
        Expression::FunctionCall(c) => lemma_call_nfb(c, cfg, r),
        Expression::SubsetExpression(s) => lemma_subset_nfb(s, cfg, r),
        Expression::ForLoopExpression(f) => lemma_for_nfb(f, cfg, r),
        Expression::LambdaFunction(l) => lemma_lambda_nfb(l, cfg, r),
        _ => {},
    }
}

proof fn lemma_term_nfb<'a>(t: TermExpr<'a>, cfg: FormattingConfig, r: nat)
    requires
        term_stays_flat(t),
    ensures
        no_forced_break(term_doc(t, cfg, r).0),
    decreases t, 2nat,
{
    broadcast use group_nfb;

    assert(!is_embracing_term(t, cfg));
    lemma_token_nfb(*t.pre_delimiters.unwrap());
    lemma_token_nfb(*t.post_delimiters.unwrap());
    if t.term@.len() > 0 {
        lemma_exprs_nfb(t.term@, t.term@.len(), false, cfg, r);
        let ds = exprs_doc(t.term@, t.term@.len(), false, cfg, r).0;
        lemma_join_nfb(ds);
    }
}

proof fn lemma_exprs_nfb<'a>(
    es: Seq<Expression<'a>>,
    n: nat,
    grouped: bool,
    cfg: FormattingConfig,
    r: nat,
)
    requires
        exprs_stay_flat(es, n),
    ensures
        all_no_forced_break(exprs_doc(es, n, grouped, cfg, r).0),
    decreases es, n,
{
    broadcast use group_nfb;

    if n > 0 && n <= es.len() {
        lemma_exprs_nfb(es, (n - 1) as nat, grouped, cfg, r);
        let (ds, r1) = exprs_doc(es, (n - 1) as nat, grouped, cfg, r);
        lemma_expr_nfb(es[n - 1], cfg, r1);
        let (d, r2) = expr_doc(es[n - 1], cfg, r1);
        if grouped {
            lemma_push_nfb(ds, Rc::new(next_group(d, ShouldBreak::No, r2)));
        } else {
            lemma_push_nfb(ds, Rc::new(d));
        }
    }
}

proof fn lemma_opt_expr_nfb<'a>(e: Option<Expression<'a>>, cfg: FormattingConfig, r: nat)
    requires
        e matches Some(x) ==> stays_flat(x),
    ensures
        no_forced_break(opt_expr_doc(e, cfg, r).0),
    decreases e, 0nat,
{
    broadcast use group_nfb;

    if let Some(x) = e {
        lemma_expr_nfb(x, cfg, r);
    }
}

proof fn lemma_arg_nfb<'a>(a: Arg<'a>, cfg: FormattingConfig, r: nat)
    requires
        arg_stays_flat(a),
    ensures
        no_forced_break(arg_doc(a, cfg, r).0),
    decreases a, 0nat,
{
    broadcast use group_nfb;

    lemma_opt_expr_nfb(a.0, cfg, r);
    lemma_opt_token_nfb(a.1);
}

proof fn lemma_arg_list_nfb<'a>(args: Seq<Arg<'a>>, n: nat, cfg: FormattingConfig, r: nat)
    requires
        arg_list_stays_flat(args, n),
    ensures
        all_no_forced_break(arg_list_doc(args, n, cfg, r).0),
    decreases args, n,
{
    broadcast use group_nfb;

    if n > 0 && n <= args.len() {
        lemma_arg_list_nfb(args, (n - 1) as nat, cfg, r);
        let (ds, r1) = arg_list_doc(args, (n - 1) as nat, cfg, r);
        lemma_arg_nfb(args[n - 1], cfg, r1);
        let (d, r2) = arg_doc(args[n - 1], cfg, r1);
        lemma_push_nfb(ds, Rc::new(next_group(d, ShouldBreak::No, r2)));
    }
}

proof fn lemma_args_nfb<'a>(a: Args<'a>, cfg: FormattingConfig, r: nat, observed: Option<usize>)
    requires
        args_stay_flat(a),
    ensures
        no_forced_break(args_doc(a, cfg, r, observed).0),
    decreases a, 0nat,
{
    broadcast use group_nfb;

    lemma_delimiter_nfb(a.left_delimeter);
    lemma_delimiter_nfb(a.right_delimeter);
    lemma_arg_list_nfb(a.args@, a.args@.len(), cfg, r);
    let ds = arg_list_doc(a.args@, a.args@.len(), cfg, r).0;
    if ds.len() > 0 {
        lemma_reduce_nfb(ds, ds.len());
    }
}

proof fn lemma_param_list_nfb<'a>(args: Seq<Arg<'a>>, n: nat, cfg: FormattingConfig, r: nat)
    requires
        arg_list_stays_flat(args, n),
    ensures
        all_no_forced_break(param_list_doc(args, n, cfg, r).0),
    decreases args, n,
{
    broadcast use group_nfb;

    if n > 0 && n <= args.len() {
        lemma_param_list_nfb(args, (n - 1) as nat, cfg, r);
        let (ds, r1) = param_list_doc(args, (n - 1) as nat, cfg, r);
        assert(arg_stays_flat(args[n - 1]));
        lemma_opt_expr_nfb(args[n - 1].0, cfg, r1);
        lemma_opt_token_nfb(args[n - 1].1);
        let (v, r2) = opt_expr_doc(args[n - 1].0, cfg, r1);
        let comma = match args[n - 1].1 {
            Some(c) => commented_token_doc(*c),
            None => Doc::Nil,
        };
        lemma_push_nfb(ds, Rc::new(next_group(spec_cons(v, comma), ShouldBreak::No, r2)));
    }
}

proof fn lemma_function_def_nfb<'a>(f: FunctionDefinition<'a>, cfg: FormattingConfig, r: nat)
    requires
        token_stays_flat(*f.keyword) && args_stay_flat(f.arguments) && stays_flat(*f.body),
    ensures
        no_forced_break(function_def_doc(f, cfg, r).0),
    decreases f, 0nat,
{
    broadcast use group_nfb;

    lemma_token_nfb(*f.keyword);
    lemma_delimiter_nfb(f.arguments.left_delimeter);
    lemma_delimiter_nfb(f.arguments.right_delimeter);
    lemma_param_list_nfb(f.arguments.args@, f.arguments.args@.len(), cfg, r);
    let (ps, r1) = param_list_doc(f.arguments.args@, f.arguments.args@.len(), cfg, r);
    lemma_join_nfb(ps);
    assert(no_forced_break(params_group(f.arguments, spec_join_ungroupped(ps, Doc::Nil), cfg)));
    lemma_expr_nfb(*f.body, cfg, r1 + 1);
}

proof fn lemma_if_conditional_nfb<'a>(c: IfConditional<'a>, cfg: FormattingConfig, r: nat)
    requires
        if_conditional_stays_flat(c),
    ensures
        no_forced_break(if_conditional_doc(c, cfg, r).0),
    decreases c, 0nat,
{
    broadcast use group_nfb;

    lemma_token_nfb(*c.keyword);
    lemma_token_nfb(*c.left_delimiter);
    lemma_token_nfb(*c.right_delimiter);
    lemma_expr_nfb(*c.condition, cfg, r);
    lemma_expr_nfb(*c.body, cfg, expr_doc(*c.condition, cfg, r).1 + 1);
}

proof fn lemma_else_ifs_nfb<'a>(
    es: Seq<ElseIfConditional<'a>>,
    n: nat,
    first: Doc<'a>,
    cfg: FormattingConfig,
    r: nat,
)
    requires
        else_ifs_stay_flat(es, n),
        no_forced_break(first),
    ensures
        no_forced_break(else_ifs_doc(es, n, first, cfg, r).0),
    decreases es, n,
{
    broadcast use group_nfb;

    if n > 0 && n <= es.len() {
        lemma_else_ifs_nfb(es, (n - 1) as nat, first, cfg, r);
        lemma_token_nfb(*es[n - 1].else_keyword);
        let r1 = else_ifs_doc(es, (n - 1) as nat, first, cfg, r).1;
        lemma_if_conditional_nfb(es[n - 1].if_conditional, cfg, r1);
    }
}

proof fn lemma_if_nfb<'a>(i: IfExpression<'a>, cfg: FormattingConfig, r: nat)
    requires
        if_conditional_stays_flat(i.if_conditional) && else_ifs_stay_flat(
            i.else_ifs@,
            i.else_ifs@.len(),
        ) && trailing_else_stays_flat(i.trailing_else),
    ensures
        no_forced_break(if_doc(i, cfg, r).0),
    decreases i, 0nat,
{
    broadcast use group_nfb;

    lemma_if_conditional_nfb(i.if_conditional, cfg, r);
    let (first, r1) = if_conditional_doc(i.if_conditional, cfg, r);
    lemma_else_ifs_nfb(i.else_ifs@, i.else_ifs@.len(), first, cfg, r1);
    let r2 = else_ifs_doc(i.else_ifs@, i.else_ifs@.len(), first, cfg, r1).1;
    if let Some(t) = i.trailing_else {
        lemma_token_nfb(*t.else_keyword);
        lemma_expr_nfb(*t.body, cfg, r2);
    }
}

proof fn lemma_while_nfb<'a>(w: WhileExpression<'a>, cfg: FormattingConfig, r: nat)
    requires
        token_stays_flat(*w.while_keyword) && stays_flat(*w.condition) && stays_flat(*w.body),
    ensures
        no_forced_break(while_doc(w, cfg, r).0),
    decreases w, 0nat,
{
    broadcast use group_nfb;

    lemma_token_nfb(*w.while_keyword);
    lemma_expr_nfb(*w.condition, cfg, r);
    lemma_expr_nfb(*w.body, cfg, expr_doc(*w.condition, cfg, r).1);
}

proof fn lemma_repeat_nfb<'a>(rep: RepeatExpression<'a>, cfg: FormattingConfig, r: nat)
    requires
        token_stays_flat(*rep.repeat_keyword) && stays_flat(*rep.body),
    ensures
        no_forced_break(repeat_doc(rep, cfg, r).0),
    decreases rep, 0nat,
{
    broadcast use group_nfb;

    lemma_token_nfb(*rep.repeat_keyword);
    lemma_expr_nfb(*rep.body, cfg, r);
}

proof fn lemma_call_nfb<'a>(c: FunctionCall<'a>, cfg: FormattingConfig, r: nat)
    requires
        stays_flat(*c.function_ref) && args_stay_flat(c.args) && no_closure_before_last(c.args),
    ensures
        no_forced_break(call_doc(c, cfg, r).0),
    decreases c, 0nat,
{
    broadcast use group_nfb;

    law_no_closure_before_last_keeps_args(c.args);
    lemma_expr_nfb(*c.function_ref, cfg, r + 1);
    let r1 = expr_doc(*c.function_ref, cfg, r + 1).1;
    lemma_args_nfb(c.args, cfg, r1, Some((r + 1) as usize));
}

proof fn lemma_subset_nfb<'a>(s: SubsetExpression<'a>, cfg: FormattingConfig, r: nat)
    requires
        stays_flat(*s.object_ref) && args_stay_flat(s.args) && no_closure_before_last(s.args),
    ensures
        no_forced_break(subset_doc(s, cfg, r).0),
    decreases s, 0nat,
{
    broadcast use group_nfb;

    law_no_closure_before_last_keeps_args(s.args);
    lemma_expr_nfb(*s.object_ref, cfg, r);
    lemma_args_nfb(s.args, cfg, expr_doc(*s.object_ref, cfg, r).1, None);
}

proof fn lemma_for_nfb<'a>(f: ForLoop<'a>, cfg: FormattingConfig, r: nat)
    requires
        token_stays_flat(*f.keyword) && token_stays_flat(*f.left_delim) && stays_flat(*f.identifier)
            && token_stays_flat(*f.in_keyword) && stays_flat(*f.collection) && token_stays_flat(
            *f.right_delim,
        ) && stays_flat(*f.body),
    ensures
        no_forced_break(for_doc(f, cfg, r).0),
    decreases f, 0nat,
{
    broadcast use group_nfb;

    lemma_token_nfb(*f.keyword);
    lemma_token_nfb(*f.left_delim);
    lemma_token_nfb(*f.in_keyword);
    lemma_token_nfb(*f.right_delim);
    lemma_expr_nfb(*f.identifier, cfg, r);
    let r1 = expr_doc(*f.identifier, cfg, r).1;
    lemma_expr_nfb(*f.collection, cfg, r1);
    let r2 = expr_doc(*f.collection, cfg, r1).1;
    lemma_expr_nfb(*f.body, cfg, r2 + 1);
}

proof fn lemma_lambda_nfb<'a>(l: Lambda<'a>, cfg: FormattingConfig, r: nat)
    requires
        token_stays_flat(*l.keyword) && args_stay_flat(l.args) && stays_flat(*l.body),
    ensures
        no_forced_break(lambda_doc(l, cfg, r).0),
    decreases l, 0nat,
{
    broadcast use group_nfb;

    lemma_token_nfb(*l.keyword);
    lemma_args_nfb(l.args, cfg, r, None);
    lemma_expr_nfb(*l.body, cfg, args_doc(l.args, cfg, r, None).1);
}

} // verus!

verus! {

// ---------------------------------------------------------------------------
// What does force a break
// ---------------------------------------------------------------------------
/// A block in braces with at least one expression (other than the embracing
/// operator) always breaks: its document is a group that must break.
pub proof fn law_braces_always_break<'a>(t: TermExpr<'a>, cfg: FormattingConfig, r: nat)
    requires
        t.pre_delimiters matches Some(pre) && pre.token is LBrace,
        t.post_delimiters is Some,
        t.term@.len() > 0,
        !is_embracing_term(t, cfg),
    ensures
        term_doc(t, cfg, r).0 matches Doc::Group(g, _) && g.1 is Yes,
{
}

/// A token with leading comments puts them on their own lines: its document
/// is a group that must break.
pub proof fn law_leading_comments_break<'a>(t: CommentedToken<'a>)
    requires
        t.leading_comments is Some,
    ensures
        commented_token_doc(t) matches Doc::Group(g, _) && g.1 is Yes,
{
    reveal(commented_token_doc);
}

/// A call with a closure in an argument before the last one breaks all its
/// arguments: its document is a group that must break.
pub proof fn law_call_with_early_closure_breaks<'a>(c: FunctionCall<'a>, cfg: FormattingConfig, r: nat, i: int)
    requires
        0 <= i < c.args.args@.len() - 1,
        arg_contains_closure(c.args.args@[i]),
    ensures
        call_doc(c, cfg, r).0 matches Doc::Group(g, _) && g.1 is Yes,
{
    crate::doc_rules::law_closure_before_last_breaks_args(c.args, i);
}

} // verus!
