//! Formatting keeps the code: the visible texts of the document of an
//! expression are the texts of its tokens and comments, in source order.
use crate::ast::{
    arg_list_wf, arg_wf, args_wf, delimiter_wf, else_ifs_wf, expr_wf, exprs_wf, if_conditional_wf,
    opt_token_wf, term_wf, trailing_else_wf, Arg, Args, Delimiter, ElseIfConditional, Expression,
    ForLoop, FunctionCall, FunctionDefinition, IfConditional, IfExpression, Lambda,
    RepeatExpression, SubsetExpression, TermExpr, TrailingElse, WhileExpression,
};
use crate::config::FormattingConfig;
use crate::doc_rules::{
    after_keyword, arg_doc, arg_list_doc, args_doc, block_doc, bop_doc, braces_doc, call_doc, commented_token_doc,
    delimiter_doc, double_brace_doc, else_ifs_doc, embracing_doc, expr_doc, exprs_doc, for_doc,
    for_head, function_def_doc, if_conditional_doc, if_doc, is_double_brace, is_embracing_term,
    join_prefix, lambda_doc, leading_comments_doc, next_group, opt_expr_doc, param_list_doc,
    params_group, parens_doc, reduce_with_breaks, repeat_doc, spec_join_ungroupped, subset_doc,
    term_doc, token_doc, while_doc, with_inline_comment,
};
use crate::doc::{
    spec_cons, spec_group, spec_nest, spec_nest_hanging, spec_nest_if_break, spec_plain_text,
    spec_text, Doc, InlineCommentPosition, ShouldBreak,
};
use crate::tokens::{token_text, CommentedToken, Token};
use std::rc::Rc;
use vstd::prelude::*;

verus! {

/// The texts of a document, in order; breaks have none.
pub open spec fn doc_texts<'a>(d: Doc<'a>) -> Seq<&'a str>
    decreases d,
{
    match d {
        Doc::Nil => Seq::empty(),
        Doc::Break(_) => Seq::empty(),
        Doc::Cons(a, b, _) => doc_texts(*a) + doc_texts(*b),
        Doc::Text(s, _, _) => seq![s],
        Doc::Nest(_, x, _) => doc_texts(*x),
        Doc::NestIfBreak(_, x, _, _) => doc_texts(*x),
        Doc::NestHanging(x, _) => doc_texts(*x),
        Doc::Group(g, _) => doc_texts(*g.0),
    }
}


/// The blank texts: the empty text and a single space.
pub open spec fn is_blank(s: &str) -> bool {
    s@ == ""@ || s@ == " "@
}

/// The texts that are not blank, in order.
pub open spec fn visible<'a>(s: Seq<&'a str>) -> Seq<&'a str>
    decreases s.len(),
{
    if s.len() == 0 {
        s
    } else if is_blank(s.last()) {
        visible(s.drop_last())
    } else {
        visible(s.drop_last()).push(s.last())
    }
}

/// The visible texts of a document.
pub open spec fn doc_visible<'a>(d: Doc<'a>) -> Seq<&'a str> {
    visible(doc_texts(d))
}

/// The texts of a token with its comments: the leading comments, the token,
/// the inline comment.
pub open spec fn commented_token_texts<'a>(t: CommentedToken<'a>) -> Seq<&'a str> {
    let leading = match t.leading_comments {
        Some(cs) => cs@,
        None => Seq::empty(),
    };
    let inline = match t.inline_comment {
        Some(c) => seq![c],
        None => Seq::empty(),
    };
    leading + seq![token_text(t.token)] + inline
}

pub open spec fn opt_token_texts<'a>(t: Option<&'a CommentedToken<'a>>) -> Seq<&'a str> {
    match t {
        Some(t) => commented_token_texts(*t),
        None => Seq::empty(),
    }
}

pub open spec fn delimiter_texts<'a>(d: Delimiter<'a>) -> Seq<&'a str> {
    match d {
        Delimiter::Paren(t) => commented_token_texts(*t),
        Delimiter::SingleBracket(t) => commented_token_texts(*t),
        Delimiter::DoubleBracket((t1, t2)) => commented_token_texts(*t1) + commented_token_texts(*t2),
    }
}

/// The texts of the tokens and comments of an expression, in source order.
/// Newlines and runs of whitespace have none: the layout decides where lines end.
pub open spec fn expr_texts<'a>(e: Expression<'a>) -> Seq<&'a str>
    decreases e, 0nat,
{
    match e {
        Expression::Symbol(t) | Expression::Literal(t) | Expression::Comment(t)
        | Expression::Continue(t) | Expression::Break(t) | Expression::EOF(t) => commented_token_texts(*t),
        Expression::Newline(_) | Expression::Whitespace(_) => Seq::empty(),
        Expression::Term(t) => term_texts(*t),
        Expression::Unary(op, x) => commented_token_texts(*op) + expr_texts(*x),
        Expression::Bop(op, l, r) => expr_texts(*l) + commented_token_texts(*op) + expr_texts(*r),
        Expression::Formula(op, x) => commented_token_texts(*op) + expr_texts(*x),
        Expression::FunctionDef(f) => commented_token_texts(*f.keyword) + args_texts(f.arguments)
            + expr_texts(*f.body),
        Expression::LambdaFunction(l) => commented_token_texts(*l.keyword) + args_texts(l.args)
            + expr_texts(*l.body),
        Expression::IfExpression(i) => if_texts(i),
        Expression::WhileExpression(w) => commented_token_texts(*w.while_keyword) + expr_texts(
            *w.condition,
        ) + expr_texts(*w.body),
        Expression::RepeatExpression(r) => commented_token_texts(*r.repeat_keyword) + expr_texts(
            *r.body,
        ),
        Expression::FunctionCall(c) => expr_texts(*c.function_ref) + args_texts(c.args),
        Expression::SubsetExpression(s) => expr_texts(*s.object_ref) + args_texts(s.args),
        Expression::ForLoopExpression(f) => commented_token_texts(*f.keyword)
            + commented_token_texts(*f.left_delim) + expr_texts(*f.identifier)
            + commented_token_texts(*f.in_keyword) + expr_texts(*f.collection)
            + commented_token_texts(*f.right_delim) + expr_texts(*f.body),
    }
}

pub open spec fn term_texts<'a>(t: TermExpr<'a>) -> Seq<&'a str>
    decreases t, 0nat,
{
    opt_token_texts(t.pre_delimiters) + exprs_texts(t.term@, t.term@.len()) + opt_token_texts(
        t.post_delimiters,
    )
}

/// The texts of the first `n` expressions.
pub open spec fn exprs_texts<'a>(es: Seq<Expression<'a>>, n: nat) -> Seq<&'a str>
    decreases es, n,
{
    if n == 0 || n > es.len() {
        Seq::empty()
    } else {
        exprs_texts(es, (n - 1) as nat) + expr_texts(es[n - 1])
    }
}

pub open spec fn arg_texts<'a>(a: Arg<'a>) -> Seq<&'a str>
    decreases a, 0nat,
{
    let value = match a.0 {
        Some(e) => expr_texts(e),
        None => Seq::empty(),
    };
    value + opt_token_texts(a.1)
}

/// The texts of the first `n` arguments.
pub open spec fn arg_list_texts<'a>(args: Seq<Arg<'a>>, n: nat) -> Seq<&'a str>
    decreases args, n,
{
    if n == 0 || n > args.len() {
        Seq::empty()
    } else {
        arg_list_texts(args, (n - 1) as nat) + arg_texts(args[n - 1])
    }
}

pub open spec fn args_texts<'a>(a: Args<'a>) -> Seq<&'a str>
    decreases a, 0nat,
{
    delimiter_texts(a.left_delimeter) + arg_list_texts(a.args@, a.args@.len()) + delimiter_texts(
        a.right_delimeter,
    )
}

pub open spec fn if_conditional_texts<'a>(c: IfConditional<'a>) -> Seq<&'a str>
    decreases c, 0nat,
{
    commented_token_texts(*c.keyword) + commented_token_texts(*c.left_delimiter) + expr_texts(
        *c.condition,
    ) + commented_token_texts(*c.right_delimiter) + expr_texts(*c.body)
}

/// The texts of the first `n` `else if` branches.
pub open spec fn else_ifs_texts<'a>(es: Seq<ElseIfConditional<'a>>, n: nat) -> Seq<&'a str>
    decreases es, n,
{
    if n == 0 || n > es.len() {
        Seq::empty()
    } else {
        else_ifs_texts(es, (n - 1) as nat) + commented_token_texts(*es[n - 1].else_keyword)
            + if_conditional_texts(es[n - 1].if_conditional)
    }
}

pub open spec fn if_texts<'a>(i: IfExpression<'a>) -> Seq<&'a str>
    decreases i, 0nat,
{
    let trailing = match i.trailing_else {
        Some(t) => commented_token_texts(*t.else_keyword) + expr_texts(*t.body),
        None => Seq::empty(),
    };
    if_conditional_texts(i.if_conditional) + else_ifs_texts(i.else_ifs@, i.else_ifs@.len())
        + trailing
}


// ---------------------------------------------------------------------------
// Visible texts of the building blocks
// ---------------------------------------------------------------------------
pub broadcast proof fn lemma_visible_add<'a>(a: Seq<&'a str>, b: Seq<&'a str>)
    ensures
        #[trigger] visible(a + b) == visible(a) + visible(b),
    decreases b.len(),
{
    if b.len() == 0 {
        assert(a + b =~= a);
        assert(visible(a) + visible(b) =~= visible(a));
    } else {
        assert((a + b).drop_last() =~= a + b.drop_last());
        assert((a + b).last() == b.last());
        lemma_visible_add(a, b.drop_last());
        if !is_blank(b.last()) {
            assert(visible(a) + visible(b.drop_last()).push(b.last()) =~= (visible(a) + visible(
                b.drop_last(),
            )).push(b.last()));
        }
    }
}

pub broadcast proof fn lemma_visible_cons<'a>(a: Doc<'a>, b: Doc<'a>)
    ensures
        #[trigger] doc_visible(spec_cons(a, b)) == doc_visible(a) + doc_visible(b),
{
    lemma_visible_add(doc_texts(a), doc_texts(b));
}

pub broadcast proof fn lemma_visible_group<'a>(d: Doc<'a>, sb: ShouldBreak, r: usize)
    ensures
        #[trigger] doc_visible(spec_group(d, sb, r)) == doc_visible(d),
{
}

pub broadcast proof fn lemma_visible_nest<'a>(d: Doc<'a>, indent: i32)
    ensures
        #[trigger] doc_visible(spec_nest(d, indent)) == doc_visible(d),
{
}

pub broadcast proof fn lemma_visible_nest_if_break<'a>(d: Doc<'a>, indent: i32, o: usize)
    ensures
        #[trigger] doc_visible(spec_nest_if_break(d, indent, o)) == doc_visible(d),
{
}

pub broadcast proof fn lemma_visible_nest_hanging<'a>(d: Doc<'a>)
    ensures
        #[trigger] doc_visible(spec_nest_hanging(d)) == doc_visible(d),
{
}

pub broadcast proof fn lemma_visible_break<'a>(s: &'a str)
    ensures
        #[trigger] doc_visible(Doc::Break(s)) == Seq::<&'a str>::empty(),
{
}

pub broadcast proof fn lemma_visible_nil<'a>()
    ensures
        #[trigger] doc_visible(Doc::<'a>::Nil) == Seq::<&'a str>::empty(),
{
}

pub broadcast proof fn lemma_visible_text<'a>(s: &'a str, size: usize, p: InlineCommentPosition)
    ensures
        #[trigger] doc_visible(spec_text(s, size, p)) == visible(seq![s]),
{
}

pub broadcast proof fn lemma_visible_blank<'a>(s: &'a str)
    requires
        is_blank(s),
    ensures
        #[trigger] doc_visible(spec_plain_text(s)) == Seq::<&'a str>::empty(),
{
    let t = seq![s];
    assert(doc_texts(spec_plain_text(s)) == t);
    assert(t.drop_last() =~= Seq::<&'a str>::empty());
    assert(t.last() == s);
    assert(visible(t) == visible(t.drop_last()));
}

pub broadcast group group_visible {
    lemma_visible_add,
    lemma_visible_cons,
    lemma_visible_group,
    lemma_visible_nest,
    lemma_visible_nest_if_break,
    lemma_visible_nest_hanging,
    lemma_visible_break,
    lemma_visible_nil,
    lemma_visible_text,
    lemma_visible_blank,
}


// ---------------------------------------------------------------------------
// Tokens
// ---------------------------------------------------------------------------
proof fn lemma_leading_comments_texts<'a>(cs: Seq<&'a str>, n: nat)
    requires
        1 <= n <= cs.len(),
    ensures
        doc_texts(leading_comments_doc(cs, n)) == cs.take(n as int),
    decreases n,
{
    if n > 1 {
        lemma_leading_comments_texts(cs, (n - 1) as nat);
        let prev = leading_comments_doc(cs, (n - 1) as nat);
        let with_break = spec_cons(prev, Doc::Break(""));
        assert(doc_texts(Doc::Break("")) == Seq::<&'a str>::empty());
        assert(doc_texts(with_break) == doc_texts(prev) + Seq::<&'a str>::empty());
        assert(doc_texts(spec_text(cs[n - 1], 0, InlineCommentPosition::No)) == seq![cs[n - 1]]);
        assert(doc_texts(leading_comments_doc(cs, n)) == doc_texts(with_break) + seq![cs[n - 1]]);
        assert(cs.take(n as int) =~= cs.take(n - 1) + Seq::<&'a str>::empty() + seq![cs[n - 1]]);
    } else {
        assert(cs.take(1) =~= seq![cs[0]]);
    }
}

proof fn lemma_token_doc_texts<'a>(token: Token<'a>)
    ensures
        doc_texts(token_doc(token)) == seq![token_text(token)],
{
    reveal(token_doc);
}

pub proof fn lemma_commented_token_visible<'a>(t: CommentedToken<'a>)
    requires
        t.wf(),
    ensures
        doc_visible(commented_token_doc(t)) == visible(commented_token_texts(t)),
{
    broadcast use group_visible;

    reveal(commented_token_doc);
    lemma_token_doc_texts(t.token);
    let tt = seq![token_text(t.token)];
    let empty = Seq::<&'a str>::empty();
    assert(doc_visible(token_doc(t.token)) == visible(tt));
    match (t.leading_comments, t.inline_comment) {
        (None, None) => {
            assert(commented_token_texts(t) =~= tt);
        },
        (None, Some(c)) => {
            assert(commented_token_texts(t) =~= tt + seq![c]);
            assert(doc_visible(with_inline_comment(token_doc(t.token), c)) == visible(tt) + empty
                + visible(seq![c]));
            assert(visible(tt) + empty + visible(seq![c]) =~= visible(tt) + visible(seq![c]));
        },
        (Some(cs), None) => {
            lemma_leading_comments_texts(cs@, cs@.len());
            assert(cs@.take(cs@.len() as int) =~= cs@);
            assert(commented_token_texts(t) =~= cs@ + tt);
            assert(visible(cs@) + empty + visible(tt) =~= visible(cs@) + visible(tt));
        },
        (Some(cs), Some(c)) => {
            lemma_leading_comments_texts(cs@, cs@.len());
            assert(cs@.take(cs@.len() as int) =~= cs@);
            assert(commented_token_texts(t) =~= cs@ + tt + seq![c]);
            assert(visible(cs@) + empty + (visible(tt) + empty + visible(seq![c])) =~= visible(cs@)
                + visible(tt) + visible(seq![c]));
        },
    }
}

pub proof fn lemma_opt_token_visible<'a>(t: Option<&'a CommentedToken<'a>>)
    requires
        opt_token_wf(t),
    ensures
        t matches Some(tok) ==> doc_visible(commented_token_doc(*tok)) == visible(
            opt_token_texts(t),
        ),
        t is None ==> visible(opt_token_texts(t)) == Seq::<&'a str>::empty(),
{
    if let Some(tok) = t {
        lemma_commented_token_visible(*tok);
    }
}

pub proof fn lemma_delimiter_visible<'a>(d: Delimiter<'a>)
    requires
        delimiter_wf(d),
    ensures
        doc_visible(delimiter_doc(d)) == visible(delimiter_texts(d)),
{
    broadcast use group_visible;

    reveal(delimiter_doc);
    match d {
        Delimiter::Paren(t) => lemma_commented_token_visible(*t),
        Delimiter::SingleBracket(t) => lemma_commented_token_visible(*t),
        Delimiter::DoubleBracket((t1, t2)) => {
            lemma_commented_token_visible(*t1);
            lemma_commented_token_visible(*t2);
        },
    }
}

// ---------------------------------------------------------------------------
// Lists of documents
// ---------------------------------------------------------------------------
/// The visible texts of the first `n` documents, one after the other.
pub open spec fn docs_visible<'a>(ds: Seq<Rc<Doc<'a>>>, n: nat) -> Seq<&'a str>
    decreases n,
{
    if n == 0 {
        Seq::empty()
    } else {
        docs_visible(ds, (n - 1) as nat) + doc_visible(*ds[n - 1])
    }
}

proof fn lemma_docs_visible_push<'a>(ds: Seq<Rc<Doc<'a>>>, d: Rc<Doc<'a>>, n: nat)
    requires
        n <= ds.len(),
    ensures
        docs_visible(ds.push(d), n) == docs_visible(ds, n),
    decreases n,
{
    if n > 0 {
        lemma_docs_visible_push(ds, d, (n - 1) as nat);
        assert(ds.push(d)[n - 1] == ds[n - 1]);
    }
}

proof fn lemma_join_prefix_visible<'a>(ds: Seq<Rc<Doc<'a>>>, n: nat)
    requires
        n <= ds.len(),
    ensures
        doc_visible(join_prefix(ds, Doc::Nil, n)) == docs_visible(ds, n),
    decreases n,
{
    broadcast use group_visible;

    if n == 0 {
    } else if n == 1 {
        assert(docs_visible(ds, 0) + doc_visible(*ds[0]) =~= doc_visible(*ds[0]));
        assert(Seq::<&'a str>::empty() + doc_visible(*ds[0]) =~= doc_visible(*ds[0]));
    } else {
        lemma_join_prefix_visible(ds, (n - 1) as nat);
        let prev = join_prefix(ds, Doc::Nil, (n - 1) as nat);
        let e = Seq::<&'a str>::empty();
        assert(docs_visible(ds, (n - 1) as nat) + e =~= docs_visible(ds, (n - 1) as nat));
        assert(doc_visible(prev) + e + e + doc_visible(*ds[n - 1]) =~= doc_visible(prev)
            + doc_visible(*ds[n - 1]));
    }
}

pub proof fn lemma_join_visible<'a>(ds: Seq<Rc<Doc<'a>>>)
    ensures
        doc_visible(spec_join_ungroupped(ds, Doc::Nil)) == docs_visible(ds, ds.len()),
{
    broadcast use group_visible;

    lemma_join_prefix_visible(ds, ds.len());
    let e = Seq::<&'a str>::empty();
    assert(e + e =~= e);
}

proof fn lemma_reduce_visible<'a>(ds: Seq<Rc<Doc<'a>>>, n: nat)
    requires
        1 <= n <= ds.len(),
    ensures
        doc_visible(reduce_with_breaks(ds, n)) == docs_visible(ds, n),
    decreases n,
{
    broadcast use group_visible;

    if n == 1 {
        assert(docs_visible(ds, 0) + doc_visible(*ds[0]) =~= doc_visible(*ds[0]));
    } else {
        lemma_reduce_visible(ds, (n - 1) as nat);
        let prev = reduce_with_breaks(ds, (n - 1) as nat);
        let e = Seq::<&'a str>::empty();
        assert(doc_visible(prev) + e + doc_visible(*ds[n - 1]) =~= doc_visible(prev) + doc_visible(
            *ds[n - 1],
        ));
    }
}


// ---------------------------------------------------------------------------
// Expressions
// ---------------------------------------------------------------------------
/// Formatting keeps the code: the visible texts of the document of a well
/// formed expression are the texts of its tokens and comments, in source
/// order (spaces and empty texts are what the formatter adds; newlines and
/// runs of whitespace are left to the layout).
pub proof fn law_expr_doc_keeps_tokens<'a>(e: Expression<'a>, cfg: FormattingConfig, r: nat)
    requires
        expr_wf(e),
    ensures
        doc_visible(expr_doc(e, cfg, r).0) == visible(expr_texts(e)),
    decreases e, 0nat,
{
    broadcast use group_visible;

    let empty = Seq::<&'a str>::empty();
    match e {
        Expression::Symbol(t) | Expression::Literal(t) | Expression::Comment(t)
        | Expression::Continue(t) | Expression::Break(t) | Expression::EOF(t) => {
            lemma_commented_token_visible(*t);
        },
        Expression::Newline(_) => {
            assert(visible(empty) == empty);
        },
        Expression::Whitespace(_) => {
            assert(visible(empty) == empty);
        },
        Expression::Term(t) => {
            lemma_term_visible(*t, cfg, r);
        },
        Expression::Unary(op, x) => {
            lemma_commented_token_visible(*op);
            law_expr_doc_keeps_tokens(*x, cfg, r);
        },
        Expression::Bop(op, lhs, rhs) => {
            lemma_commented_token_visible(*op);
            law_expr_doc_keeps_tokens(*lhs, cfg, r);
            let (ld, r1) = expr_doc(*lhs, cfg, r);
            law_expr_doc_keeps_tokens(*rhs, cfg, r1);
            let (rd, r2) = expr_doc(*rhs, cfg, r1);
            lemma_bop_visible(*op, ld, rd, cfg, r2);
        },
        Expression::Formula(op, x) => {
            lemma_commented_token_visible(*op);
            law_expr_doc_keeps_tokens(*x, cfg, r);
            let od = commented_token_doc(*op);
            let xd = expr_doc(*x, cfg, r).0;
            assert(doc_visible(od) + empty + doc_visible(xd) =~= doc_visible(od) + doc_visible(xd));
        },
        Expression::FunctionDef(f) => lemma_function_def_visible(f, cfg, r),
        Expression::IfExpression(i) => lemma_if_visible(i, cfg, r),
        Expression::WhileExpression(w) => lemma_while_visible(w, cfg, r),
        Expression::RepeatExpression(rep) => lemma_repeat_visible(rep, cfg, r),
        Expression::FunctionCall(c) => lemma_call_visible(c, cfg, r),
        Expression::SubsetExpression(s) => lemma_subset_visible(s, cfg, r),
        Expression::ForLoopExpression(f) => lemma_for_visible(f, cfg, r),
        Expression::LambdaFunction(l) => lemma_lambda_visible(l, cfg, r),
    }
}

proof fn lemma_bop_visible<'a>(
    op: CommentedToken<'a>,
    ld: Doc<'a>,
    rd: Doc<'a>,
    cfg: FormattingConfig,
    r: nat,
)
    ensures
        doc_visible(bop_doc(op, ld, rd, cfg, r).0) == doc_visible(ld) + doc_visible(
            commented_token_doc(op),
        ) + doc_visible(rd),
{
    broadcast use group_visible;

    let e = Seq::<&'a str>::empty();
    let (l, o, x) = (doc_visible(ld), doc_visible(commented_token_doc(op)), doc_visible(rd));
    assert(l + e + o + (e + x) =~= l + o + x);
    assert(l + e + o + e + x =~= l + o + x);
    assert(l + o + x =~= l + o + x);
}

proof fn lemma_term_visible<'a>(t: TermExpr<'a>, cfg: FormattingConfig, r: nat)
    requires
        term_wf(t),
    ensures
        doc_visible(term_doc(t, cfg, r).0) == visible(term_texts(t)),
    decreases t, 2nat,
{
    broadcast use group_visible;

    lemma_opt_token_visible(t.pre_delimiters);
    lemma_opt_token_visible(t.post_delimiters);
    match (t.pre_delimiters, t.post_delimiters) {
        (Some(pre), Some(_)) => {
            if is_embracing_term(t, cfg) {
                lemma_embracing_visible(t, cfg, r);
            } else if pre.token is LBrace {
                lemma_braces_visible(t, cfg, r);
            } else {
                lemma_parens_visible(t, cfg, r);
            }
        },
        (None, None) => {
            lemma_exprs_visible(t.term@, t.term@.len(), true, cfg, r);
            let ds = exprs_doc(t.term@, t.term@.len(), true, cfg, r).0;
            lemma_join_visible(ds);
            let e = Seq::<&'a str>::empty();
            assert(term_texts(t) =~= e + exprs_texts(t.term@, t.term@.len()) + e);
            assert(visible(e) == e);
            assert(e + visible(exprs_texts(t.term@, t.term@.len())) + e =~= visible(
                exprs_texts(t.term@, t.term@.len()),
            ));
        },
        _ => {},
    }
}

/// A block's visible texts: the opening delimiter, the inside, the closing one.
proof fn lemma_block_visible<'a>(
    pre: Doc<'a>,
    inside: Doc<'a>,
    post: Doc<'a>,
    brk: &'a str,
    cfg: FormattingConfig,
)
    ensures
        doc_visible(block_doc(pre, inside, post, brk, cfg)) == doc_visible(pre) + doc_visible(inside)
            + doc_visible(post),
{
    broadcast use group_visible;

    let e = Seq::<&'a str>::empty();
    let (p, i, q) = (doc_visible(pre), doc_visible(inside), doc_visible(post));
    assert(p + (e + i) + e + q =~= p + i + q);
}

/// The texts of a delimited term whose expressions have the given visible texts.
proof fn lemma_delimited_texts<'a>(t: TermExpr<'a>, inside: Seq<&'a str>)
    requires
        term_wf(t),
        t.pre_delimiters is Some,
        inside == visible(exprs_texts(t.term@, t.term@.len())),
    ensures
        visible(term_texts(t)) == doc_visible(commented_token_doc(*t.pre_delimiters.unwrap()))
            + inside + doc_visible(commented_token_doc(*t.post_delimiters.unwrap())),
{
    broadcast use group_visible;

    lemma_opt_token_visible(t.pre_delimiters);
    lemma_opt_token_visible(t.post_delimiters);
}

proof fn lemma_embracing_visible<'a>(t: TermExpr<'a>, cfg: FormattingConfig, r: nat)
    requires
        term_wf(t),
        is_embracing_term(t, cfg),
        t.post_delimiters is Some,
    ensures
        doc_visible(embracing_doc(t, cfg, r).0) == visible(term_texts(t)),
    decreases t, 1nat,
{
    broadcast use group_visible;

    if is_double_brace(t) {
        lemma_double_brace_visible(t, cfg, r);
    } else {
        lemma_exprs_visible(t.term@, t.term@.len(), false, cfg, r);
        let ds = exprs_doc(t.term@, t.term@.len(), false, cfg, r).0;
        lemma_join_visible(ds);
        let r1 = exprs_doc(t.term@, t.term@.len(), false, cfg, r).1;
        let joined = next_group(spec_join_ungroupped(ds, Doc::Nil), ShouldBreak::No, r1);
        lemma_block_visible(
            commented_token_doc(*t.pre_delimiters.unwrap()),
            joined,
            commented_token_doc(*t.post_delimiters.unwrap()),
            " ",
            cfg,
        );
        lemma_delimited_texts(t, visible(exprs_texts(t.term@, t.term@.len())));
    }
}

proof fn lemma_double_brace_visible<'a>(t: TermExpr<'a>, cfg: FormattingConfig, r: nat)
    requires
        term_wf(t),
        is_embracing_term(t, cfg),
        is_double_brace(t),
        t.post_delimiters is Some,
    ensures
        doc_visible(double_brace_doc(t, cfg, r).0) == visible(term_texts(t)),
    decreases t, 0nat,
{
    broadcast use group_visible;

    assert(expr_wf(t.term@[0]));
    let inner = *(t.term@[0]->Term_0);
    assert(term_wf(inner));
    lemma_opt_token_visible(inner.pre_delimiters);
    lemma_opt_token_visible(inner.post_delimiters);
    lemma_exprs_visible(inner.term@, inner.term@.len(), false, cfg, r);
    let ds = exprs_doc(inner.term@, inner.term@.len(), false, cfg, r).0;
    lemma_join_visible(ds);
    let e = Seq::<&'a str>::empty();
    let p = doc_visible(commented_token_doc(*t.pre_delimiters.unwrap()));
    let q = doc_visible(commented_token_doc(*t.post_delimiters.unwrap()));
    let ip = doc_visible(commented_token_doc(*inner.pre_delimiters.unwrap()));
    let iq = doc_visible(commented_token_doc(*inner.post_delimiters.unwrap()));
    let i = visible(exprs_texts(inner.term@, inner.term@.len()));
    assert(exprs_texts(t.term@, 0) == e);
    assert(exprs_texts(t.term@, 1) =~= e + expr_texts(t.term@[0]));
    assert(expr_texts(t.term@[0]) == term_texts(inner));
    assert(visible(term_texts(inner)) == ip + i + iq);
    assert(visible(exprs_texts(t.term@, 1)) == ip + i + iq);
    lemma_delimited_texts(t, ip + i + iq);
    assert(p + ip + e + i + e + iq + q =~= p + (ip + i + iq) + q);
}

proof fn lemma_braces_visible<'a>(t: TermExpr<'a>, cfg: FormattingConfig, r: nat)
    requires
        term_wf(t),
        t.pre_delimiters is Some,
        t.post_delimiters is Some,
    ensures
        doc_visible(braces_doc(t, cfg, r).0) == visible(term_texts(t)),
    decreases t, 0nat,
{
    broadcast use group_visible;

    let e = Seq::<&'a str>::empty();
    let p = doc_visible(commented_token_doc(*t.pre_delimiters.unwrap()));
    let q = doc_visible(commented_token_doc(*t.post_delimiters.unwrap()));
    if t.term@.len() == 0 {
        assert(visible(e) == e);
        lemma_delimited_texts(t, e);
        assert(p + e + q =~= p + q);
    } else {
        lemma_exprs_visible(t.term@, t.term@.len(), true, cfg, r);
        let ds = exprs_doc(t.term@, t.term@.len(), true, cfg, r).0;
        lemma_join_visible(ds);
        let r1 = exprs_doc(t.term@, t.term@.len(), true, cfg, r).1;
        let joined = next_group(spec_join_ungroupped(ds, Doc::Nil), ShouldBreak::Yes, r1);
        lemma_block_visible(
            commented_token_doc(*t.pre_delimiters.unwrap()),
            joined,
            commented_token_doc(*t.post_delimiters.unwrap()),
            " ",
            cfg,
        );
        lemma_delimited_texts(t, visible(exprs_texts(t.term@, t.term@.len())));
    }
}

proof fn lemma_parens_visible<'a>(t: TermExpr<'a>, cfg: FormattingConfig, r: nat)
    requires
        term_wf(t),
        t.pre_delimiters is Some,
        t.post_delimiters is Some,
    ensures
        doc_visible(parens_doc(t, cfg, r).0) == visible(term_texts(t)),
    decreases t, 0nat,
{
    broadcast use group_visible;

    let e = Seq::<&'a str>::empty();
    let p = doc_visible(commented_token_doc(*t.pre_delimiters.unwrap()));
    let q = doc_visible(commented_token_doc(*t.post_delimiters.unwrap()));
    if t.term@.len() == 0 {
        assert(visible(e) == e);
        lemma_delimited_texts(t, e);
        assert(p + e + q =~= p + q);
    } else {
        lemma_exprs_visible(t.term@, t.term@.len(), false, cfg, r);
        let ds = exprs_doc(t.term@, t.term@.len(), false, cfg, r).0;
        lemma_join_visible(ds);
        let r1 = exprs_doc(t.term@, t.term@.len(), false, cfg, r).1;
        let joined = next_group(spec_join_ungroupped(ds, Doc::Nil), ShouldBreak::No, r1);
        lemma_block_visible(
            commented_token_doc(*t.pre_delimiters.unwrap()),
            joined,
            commented_token_doc(*t.post_delimiters.unwrap()),
            "",
            cfg,
        );
        lemma_delimited_texts(t, visible(exprs_texts(t.term@, t.term@.len())));
    }
}

proof fn lemma_exprs_visible<'a>(
    es: Seq<Expression<'a>>,
    n: nat,
    grouped: bool,
    cfg: FormattingConfig,
    r: nat,
)
    requires
        n <= es.len(),
        exprs_wf(es, n),
    ensures
        exprs_doc(es, n, grouped, cfg, r).0.len() == n,
        docs_visible(exprs_doc(es, n, grouped, cfg, r).0, n) == visible(exprs_texts(es, n)),
    decreases es, n,
{
    broadcast use group_visible;

    if n > 0 {
        lemma_exprs_visible(es, (n - 1) as nat, grouped, cfg, r);
        let (ds, r1) = exprs_doc(es, (n - 1) as nat, grouped, cfg, r);
        law_expr_doc_keeps_tokens(es[n - 1], cfg, r1);
        let (d, r2) = expr_doc(es[n - 1], cfg, r1);
        let x = if grouped {
            Rc::new(next_group(d, ShouldBreak::No, r2))
        } else {
            Rc::new(d)
        };
        lemma_docs_visible_push(ds, x, (n - 1) as nat);
        assert(exprs_doc(es, n, grouped, cfg, r).0 == ds.push(x));
        assert(ds.push(x)[n - 1] == x);
    }
}

proof fn lemma_opt_expr_visible<'a>(o: Option<Expression<'a>>, cfg: FormattingConfig, r: nat)
    requires
        o matches Some(x) ==> expr_wf(x),
    ensures
        doc_visible(opt_expr_doc(o, cfg, r).0) == visible(
            match o {
                Some(x) => expr_texts(x),
                None => Seq::empty(),
            },
        ),
    decreases o, 0nat,
{
    broadcast use group_visible;

    match o {
        Some(x) => law_expr_doc_keeps_tokens(x, cfg, r),
        None => {
            assert(visible(Seq::<&'a str>::empty()) == Seq::<&'a str>::empty());
        },
    }
}

proof fn lemma_arg_visible<'a>(a: Arg<'a>, cfg: FormattingConfig, r: nat)
    requires
        arg_wf(a),
    ensures
        doc_visible(arg_doc(a, cfg, r).0) == visible(arg_texts(a)),
    decreases a, 0nat,
{
    broadcast use group_visible;

    lemma_opt_expr_visible(a.0, cfg, r);
    lemma_opt_token_visible(a.1);
    let v = doc_visible(opt_expr_doc(a.0, cfg, r).0);
    assert(v + Seq::<&'a str>::empty() =~= v);
}

proof fn lemma_arg_list_visible<'a>(args: Seq<Arg<'a>>, n: nat, cfg: FormattingConfig, r: nat)
    requires
        n <= args.len(),
        arg_list_wf(args, n),
    ensures
        arg_list_doc(args, n, cfg, r).0.len() == n,
        docs_visible(arg_list_doc(args, n, cfg, r).0, n) == visible(arg_list_texts(args, n)),
    decreases args, n,
{
    broadcast use group_visible;

    if n > 0 {
        lemma_arg_list_visible(args, (n - 1) as nat, cfg, r);
        let (ds, r1) = arg_list_doc(args, (n - 1) as nat, cfg, r);
        lemma_arg_visible(args[n - 1], cfg, r1);
        let (d, r2) = arg_doc(args[n - 1], cfg, r1);
        let x = Rc::new(next_group(d, ShouldBreak::No, r2));
        lemma_docs_visible_push(ds, x, (n - 1) as nat);
        assert(ds.push(x)[n - 1] == x);
    }
}

proof fn lemma_args_visible<'a>(a: Args<'a>, cfg: FormattingConfig, r: nat, observed: Option<usize>)
    requires
        args_wf(a),
    ensures
        doc_visible(args_doc(a, cfg, r, observed).0) == visible(args_texts(a)),
    decreases a, 0nat,
{
    broadcast use group_visible;

    lemma_delimiter_visible(a.left_delimeter);
    lemma_delimiter_visible(a.right_delimeter);
    let n = a.args@.len();
    lemma_arg_list_visible(a.args@, n, cfg, r);
    let ds = arg_list_doc(a.args@, n, cfg, r).0;
    let e = Seq::<&'a str>::empty();
    let l = doc_visible(delimiter_doc(a.left_delimeter));
    let q = doc_visible(delimiter_doc(a.right_delimeter));
    if n > 0 {
        lemma_reduce_visible(ds, n);
        let i = docs_visible(ds, n);
        assert(l + (e + i) + e + q =~= l + i + q);
    } else {
        assert(visible(e) == e);
        assert(l + e + q =~= l + q);
    }
}

proof fn lemma_param_list_visible<'a>(args: Seq<Arg<'a>>, n: nat, cfg: FormattingConfig, r: nat)
    requires
        n <= args.len(),
        arg_list_wf(args, n),
    ensures
        param_list_doc(args, n, cfg, r).0.len() == n,
        docs_visible(param_list_doc(args, n, cfg, r).0, n) == visible(arg_list_texts(args, n)),
    decreases args, n,
{
    broadcast use group_visible;

    if n > 0 {
        lemma_param_list_visible(args, (n - 1) as nat, cfg, r);
        let (ds, r1) = param_list_doc(args, (n - 1) as nat, cfg, r);
        let a = args[n - 1];
        assert(arg_wf(a));
        lemma_opt_expr_visible(a.0, cfg, r1);
        lemma_opt_token_visible(a.1);
        let (vd, r2) = opt_expr_doc(a.0, cfg, r1);
        let comma = match a.1 {
            Some(c) => commented_token_doc(*c),
            None => Doc::Nil,
        };
        let x = Rc::new(next_group(spec_cons(vd, comma), ShouldBreak::No, r2));
        lemma_docs_visible_push(ds, x, (n - 1) as nat);
        assert(ds.push(x)[n - 1] == x);
        let pv = docs_visible(ds, (n - 1) as nat);
        let v = doc_visible(vd);
        let c = doc_visible(comma);
        assert(c == visible(opt_token_texts(a.1)));
        assert(docs_visible(ds.push(x), n) == pv + (v + c));
        let vt = match a.0 {
            Some(x) => expr_texts(x),
            None => Seq::empty(),
        };
        assert(arg_texts(a) == vt + opt_token_texts(a.1));
        assert(visible(arg_list_texts(args, n)) == pv + (v + c));
    }
}

proof fn lemma_function_def_visible<'a>(f: FunctionDefinition<'a>, cfg: FormattingConfig, r: nat)
    requires
        f.keyword.wf() && args_wf(f.arguments) && expr_wf(*f.body),
    ensures
        doc_visible(function_def_doc(f, cfg, r).0) == visible(
            commented_token_texts(*f.keyword) + args_texts(f.arguments) + expr_texts(*f.body),
        ),
    decreases f, 0nat,
{
    broadcast use group_visible;

    let a = f.arguments;
    let n = a.args@.len();
    lemma_commented_token_visible(*f.keyword);
    lemma_delimiter_visible(a.left_delimeter);
    lemma_delimiter_visible(a.right_delimeter);
    lemma_param_list_visible(a.args@, n, cfg, r);
    let (ps, r1) = param_list_doc(a.args@, n, cfg, r);
    lemma_join_visible(ps);
    let params = spec_join_ungroupped(ps, Doc::Nil);
    law_expr_doc_keeps_tokens(*f.body, cfg, r1 + 1);
    let e = Seq::<&'a str>::empty();
    let l = doc_visible(delimiter_doc(a.left_delimeter));
    let q = doc_visible(delimiter_doc(a.right_delimeter));
    let p = doc_visible(params);
    assert(l + e + p + e + q =~= l + p + q);
    assert(l + p + q =~= l + p + q);
    assert(doc_visible(params_group(a, params, cfg)) == l + p + q);
    let k = doc_visible(commented_token_doc(*f.keyword));
    let b = doc_visible(expr_doc(*f.body, cfg, r1 + 1).0);
    assert(k + (l + p + q) + e + b =~= k + (l + p + q) + b);
}

proof fn lemma_if_conditional_visible<'a>(c: IfConditional<'a>, cfg: FormattingConfig, r: nat)
    requires
        if_conditional_wf(c),
    ensures
        doc_visible(if_conditional_doc(c, cfg, r).0) == visible(if_conditional_texts(c)),
    decreases c, 0nat,
{
    broadcast use group_visible;

    lemma_commented_token_visible(*c.keyword);
    lemma_commented_token_visible(*c.left_delimiter);
    lemma_commented_token_visible(*c.right_delimiter);
    law_expr_doc_keeps_tokens(*c.condition, cfg, r);
    let r1 = expr_doc(*c.condition, cfg, r).1;
    law_expr_doc_keeps_tokens(*c.body, cfg, r1 + 1);
    let e = Seq::<&'a str>::empty();
    let k = doc_visible(commented_token_doc(*c.keyword));
    let l = doc_visible(commented_token_doc(*c.left_delimiter));
    let q = doc_visible(commented_token_doc(*c.right_delimiter));
    let cd = doc_visible(expr_doc(*c.condition, cfg, r).0);
    let b = doc_visible(expr_doc(*c.body, cfg, r1 + 1).0);
    assert(k + e + (l + e + cd + e + q) + e + b =~= k + l + cd + q + b);
}

proof fn lemma_else_ifs_visible<'a>(
    es: Seq<ElseIfConditional<'a>>,
    n: nat,
    first: Doc<'a>,
    cfg: FormattingConfig,
    r: nat,
)
    requires
        n <= es.len(),
        else_ifs_wf(es, n),
    ensures
        doc_visible(else_ifs_doc(es, n, first, cfg, r).0) == doc_visible(first) + visible(
            else_ifs_texts(es, n),
        ),
    decreases es, n,
{
    broadcast use group_visible;

    let e = Seq::<&'a str>::empty();
    if n == 0 {
        assert(visible(e) == e);
        assert(doc_visible(first) + e =~= doc_visible(first));
    } else {
        lemma_else_ifs_visible(es, (n - 1) as nat, first, cfg, r);
        let (d, r1) = else_ifs_doc(es, (n - 1) as nat, first, cfg, r);
        lemma_commented_token_visible(*es[n - 1].else_keyword);
        lemma_if_conditional_visible(es[n - 1].if_conditional, cfg, r1);
        let f = doc_visible(first);
        let prev = visible(else_ifs_texts(es, (n - 1) as nat));
        let k = doc_visible(commented_token_doc(*es[n - 1].else_keyword));
        let c = visible(if_conditional_texts(es[n - 1].if_conditional));
        assert(f + prev + e + k + e + c =~= f + (prev + k + c));
    }
}

/// The visible texts of a document, a keyword and a second document.
proof fn lemma_after_keyword_visible<'a>(doc: Doc<'a>, keyword: CommentedToken<'a>, next: Doc<'a>)
    ensures
        doc_visible(after_keyword(doc, keyword, next)) == doc_visible(doc) + doc_visible(
            commented_token_doc(keyword),
        ) + doc_visible(next),
{
    broadcast use group_visible;

    let e = Seq::<&'a str>::empty();
    let (d, k, x) = (doc_visible(doc), doc_visible(commented_token_doc(keyword)), doc_visible(next));
    assert(d + e + k + e + x =~= d + k + x);
}

/// The visible texts of a branch followed by a trailing `else`.
proof fn lemma_trailing_else_visible<'a>(
    d: Doc<'a>,
    t: TrailingElse<'a>,
    cfg: FormattingConfig,
    r: nat,
)
    requires
        t.else_keyword.wf() && expr_wf(*t.body),
    ensures
        doc_visible(after_keyword(d, *t.else_keyword, expr_doc(*t.body, cfg, r).0)) == doc_visible(d)
            + visible(commented_token_texts(*t.else_keyword) + expr_texts(*t.body)),
    decreases t, 0nat,
{
    lemma_commented_token_visible(*t.else_keyword);
    law_expr_doc_keeps_tokens(*t.body, cfg, r);
    let bd = expr_doc(*t.body, cfg, r).0;
    lemma_after_keyword_visible(d, *t.else_keyword, bd);
    lemma_visible_add(commented_token_texts(*t.else_keyword), expr_texts(*t.body));
    let k = visible(commented_token_texts(*t.else_keyword));
    let b = visible(expr_texts(*t.body));
    assert(doc_visible(d) + k + b =~= doc_visible(d) + (k + b));
}

#[verifier::spinoff_prover]
proof fn lemma_if_visible<'a>(i: IfExpression<'a>, cfg: FormattingConfig, r: nat)
    requires
        if_conditional_wf(i.if_conditional) && else_ifs_wf(i.else_ifs@, i.else_ifs@.len())
            && trailing_else_wf(i.trailing_else),
    ensures
        doc_visible(if_doc(i, cfg, r).0) == visible(if_texts(i)),
    decreases i, 0nat,
{
    lemma_if_conditional_visible(i.if_conditional, cfg, r);
    let (first, r1) = if_conditional_doc(i.if_conditional, cfg, r);
    let n = i.else_ifs@.len();
    lemma_else_ifs_visible(i.else_ifs@, n, first, cfg, r1);
    let (d, r2) = else_ifs_doc(i.else_ifs@, n, first, cfg, r1);
    let ct = if_conditional_texts(i.if_conditional);
    let et = else_ifs_texts(i.else_ifs@, n);
    lemma_visible_add(ct, et);
    assert(doc_visible(d) == visible(ct + et));
    match i.trailing_else {
        Some(t) => {
            let tt = commented_token_texts(*t.else_keyword) + expr_texts(*t.body);
            lemma_trailing_else_visible(d, t, cfg, r2);
            lemma_visible_add(ct + et, tt);
            assert(if_texts(i) == ct + et + tt);
        },
        None => {
            let e = Seq::<&'a str>::empty();
            assert(if_texts(i) == ct + et + e);
            assert(ct + et + e =~= ct + et);
        },
    }
}

proof fn lemma_while_visible<'a>(w: WhileExpression<'a>, cfg: FormattingConfig, r: nat)
    requires
        w.while_keyword.wf() && expr_wf(*w.condition) && expr_wf(*w.body),
    ensures
        doc_visible(while_doc(w, cfg, r).0) == visible(
            commented_token_texts(*w.while_keyword) + expr_texts(*w.condition) + expr_texts(*w.body),
        ),
    decreases w, 0nat,
{
    broadcast use group_visible;

    lemma_commented_token_visible(*w.while_keyword);
    law_expr_doc_keeps_tokens(*w.condition, cfg, r);
    let r1 = expr_doc(*w.condition, cfg, r).1;
    law_expr_doc_keeps_tokens(*w.body, cfg, r1);
    let e = Seq::<&'a str>::empty();
    let k = doc_visible(commented_token_doc(*w.while_keyword));
    let c = doc_visible(expr_doc(*w.condition, cfg, r).0);
    let b = doc_visible(expr_doc(*w.body, cfg, r1).0);
    assert(k + e + c + e + b =~= k + c + b);
}

proof fn lemma_repeat_visible<'a>(rep: RepeatExpression<'a>, cfg: FormattingConfig, r: nat)
    requires
        rep.repeat_keyword.wf() && expr_wf(*rep.body),
    ensures
        doc_visible(repeat_doc(rep, cfg, r).0) == visible(
            commented_token_texts(*rep.repeat_keyword) + expr_texts(*rep.body),
        ),
    decreases rep, 0nat,
{
    broadcast use group_visible;

    lemma_commented_token_visible(*rep.repeat_keyword);
    law_expr_doc_keeps_tokens(*rep.body, cfg, r);
}

proof fn lemma_call_visible<'a>(c: FunctionCall<'a>, cfg: FormattingConfig, r: nat)
    requires
        expr_wf(*c.function_ref) && args_wf(c.args),
    ensures
        doc_visible(call_doc(c, cfg, r).0) == visible(expr_texts(*c.function_ref) + args_texts(c.args)),
    decreases c, 0nat,
{
    broadcast use group_visible;

    law_expr_doc_keeps_tokens(*c.function_ref, cfg, r + 1);
    let r1 = expr_doc(*c.function_ref, cfg, r + 1).1;
    lemma_args_visible(c.args, cfg, r1, Some((r + 1) as usize));
}

proof fn lemma_subset_visible<'a>(s: SubsetExpression<'a>, cfg: FormattingConfig, r: nat)
    requires
        expr_wf(*s.object_ref) && args_wf(s.args),
    ensures
        doc_visible(subset_doc(s, cfg, r).0) == visible(expr_texts(*s.object_ref) + args_texts(s.args)),
    decreases s, 0nat,
{
    broadcast use group_visible;

    law_expr_doc_keeps_tokens(*s.object_ref, cfg, r);
    let r1 = expr_doc(*s.object_ref, cfg, r).1;
    lemma_args_visible(s.args, cfg, r1, None);
}

proof fn lemma_for_visible<'a>(f: ForLoop<'a>, cfg: FormattingConfig, r: nat)
    requires
        f.keyword.wf() && f.left_delim.wf() && expr_wf(*f.identifier) && f.in_keyword.wf()
            && expr_wf(*f.collection) && f.right_delim.wf() && expr_wf(*f.body),
    ensures
        doc_visible(for_doc(f, cfg, r).0) == visible(expr_texts(Expression::ForLoopExpression(f))),
    decreases f, 0nat,
{
    broadcast use group_visible;

    lemma_commented_token_visible(*f.keyword);
    lemma_commented_token_visible(*f.left_delim);
    lemma_commented_token_visible(*f.in_keyword);
    lemma_commented_token_visible(*f.right_delim);
    law_expr_doc_keeps_tokens(*f.identifier, cfg, r);
    let (id, r1) = expr_doc(*f.identifier, cfg, r);
    law_expr_doc_keeps_tokens(*f.collection, cfg, r1);
    let (cd, r2) = expr_doc(*f.collection, cfg, r1);
    law_expr_doc_keeps_tokens(*f.body, cfg, r2 + 1);
    let bd = expr_doc(*f.body, cfg, r2 + 1).0;
    let e = Seq::<&'a str>::empty();
    let k = doc_visible(commented_token_doc(*f.keyword));
    let l = doc_visible(commented_token_doc(*f.left_delim));
    let i = doc_visible(id);
    let n = doc_visible(commented_token_doc(*f.in_keyword));
    let c = doc_visible(cd);
    let q = doc_visible(commented_token_doc(*f.right_delim));
    let b = doc_visible(bd);
    assert(doc_visible(for_head(f, id, cd, cfg)) == k + (e + l + e + i + e + n + e + c) + e + q);
    assert(k + (e + l + e + i + e + n + e + c) + e + q + e + b =~= k + l + i + n + c + q + b);
}

proof fn lemma_lambda_visible<'a>(l: Lambda<'a>, cfg: FormattingConfig, r: nat)
    requires
        l.keyword.wf() && args_wf(l.args) && expr_wf(*l.body),
    ensures
        doc_visible(lambda_doc(l, cfg, r).0) == visible(
            commented_token_texts(*l.keyword) + args_texts(l.args) + expr_texts(*l.body),
        ),
    decreases l, 0nat,
{
    broadcast use group_visible;

    lemma_commented_token_visible(*l.keyword);
    lemma_args_visible(l.args, cfg, r, None);
    let r1 = args_doc(l.args, cfg, r, None).1;
    law_expr_doc_keeps_tokens(*l.body, cfg, r1);
    let e = Seq::<&'a str>::empty();
    let k = doc_visible(commented_token_doc(*l.keyword));
    let a = doc_visible(args_doc(l.args, cfg, r, None).0);
    let b = doc_visible(expr_doc(*l.body, cfg, r1).0);
    assert(k + a + e + b =~= k + a + b);
}

} // verus!
