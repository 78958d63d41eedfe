//! What document each piece of the syntax tree becomes.
//!
//! Every rule threads the reference counter: it takes the counter before the
//! piece is converted and gives the document and the counter after it. Each
//! group takes the next number of the counter as its reference.
use crate::ast::{
    Arg, Args, Delimiter, ElseIfConditional, Expression, ForLoop, FunctionCall, FunctionDefinition,
    IfConditional, IfExpression, Lambda, RepeatExpression, SubsetExpression, TermExpr,
    WhileExpression,
};
use crate::config::{FormattingConfig, FunctionLineBreaks};
use crate::doc::{
    spec_cons, spec_group, spec_nest, spec_nest_hanging, spec_nest_if_break, spec_plain_text,
    spec_text, Doc, InlineCommentPosition, ShouldBreak,
};
use crate::tokens::{token_text, CommentedToken, Token};
use std::rc::Rc;
use vstd::prelude::*;

verus! {

/// The document of a bare token.
#[verifier::opaque]
pub open spec fn token_doc<'a>(token: Token<'a>) -> Doc<'a> {
    match token {
        Token::InlineComment(s) => spec_text(s, 0, InlineCommentPosition::No),
        _ => spec_plain_text(token_text(token)),
    }
}

/// The first `n` leading comments, one per line.
pub open spec fn leading_comments_doc<'a>(comments: Seq<&'a str>, n: nat) -> Doc<'a>
    decreases n,
{
    if n <= 1 {
        spec_plain_text(comments[0])
    } else {
        spec_cons(
            spec_cons(leading_comments_doc(comments, (n - 1) as nat), Doc::Break("")),
            spec_text(comments[n - 1], 0, InlineCommentPosition::No),
        )
    }
}

/// A token followed by its inline comment.
pub open spec fn with_inline_comment<'a>(doc: Doc<'a>, comment: &'a str) -> Doc<'a> {
    spec_cons(
        spec_cons(doc, spec_plain_text(" ")),
        spec_text(comment, 0, InlineCommentPosition::End),
    )
}

/// The leading comments, broken and hanging, above the token's own group.
pub open spec fn with_leading_comments<'a>(comments: Seq<&'a str>, token: Doc<'a>) -> Doc<'a> {
    let leading = spec_group(
        spec_nest_hanging(leading_comments_doc(comments, comments.len())),
        ShouldBreak::Yes,
        1,
    );
    spec_group(
        spec_cons(spec_cons(leading, Doc::Break("")), spec_group(token, ShouldBreak::No, 1)),
        ShouldBreak::Yes,
        1,
    )
}

/// The document of a token with its comments.
#[verifier::opaque]
pub open spec fn commented_token_doc<'a>(t: CommentedToken<'a>) -> Doc<'a> {
    let token = token_doc(t.token);
    match (t.leading_comments, t.inline_comment) {
        (None, None) => token,
        (None, Some(c)) => with_inline_comment(token, c),
        (Some(cs), None) => with_leading_comments(cs@, token),
        (Some(cs), Some(c)) => with_leading_comments(cs@, with_inline_comment(token, c)),
    }
}

#[verifier::opaque]
pub open spec fn delimiter_doc<'a>(d: Delimiter<'a>) -> Doc<'a> {
    match d {
        Delimiter::Paren(t) => commented_token_doc(*t),
        Delimiter::SingleBracket(t) => commented_token_doc(*t),
        Delimiter::DoubleBracket((t1, t2)) => spec_cons(
            commented_token_doc(*t1),
            commented_token_doc(*t2),
        ),
    }
}

/// The documents among the first `n` that are not `Nil`: the one at position 0
/// stands alone, and every other one follows the separator and a break (so
/// does one that comes after a leading `Nil`).
pub open spec fn join_prefix<'a>(docs: Seq<Rc<Doc<'a>>>, separator: Doc<'a>, n: nat) -> Doc<'a>
    decreases n,
{
    if n == 0 {
        Doc::Nil
    } else if n == 1 {
        if *docs[0] is Nil {
            Doc::Nil
        } else {
            spec_cons(Doc::Nil, *docs[0])
        }
    } else {
        let prev = join_prefix(docs, separator, (n - 1) as nat);
        if *docs[n - 1] is Nil {
            prev
        } else {
            spec_cons(spec_cons(spec_cons(prev, separator), Doc::Break(" ")), *docs[n - 1])
        }
    }
}

/// The join of all the documents, always a `Cons`: where every document is
/// `Nil` (or there is none) it is the `Cons` of two `Nil` documents.
pub open spec fn spec_join_ungroupped<'a>(docs: Seq<Rc<Doc<'a>>>, separator: Doc<'a>) -> Doc<'a> {
    let joined = join_prefix(docs, separator, docs.len());
    if joined is Nil {
        spec_cons(Doc::Nil, Doc::Nil)
    } else {
        joined
    }
}

/// The first `n` documents (`n >= 1`), each after a break.
pub open spec fn reduce_with_breaks<'a>(docs: Seq<Rc<Doc<'a>>>, n: nat) -> Doc<'a>
    decreases n,
{
    if n <= 1 {
        *docs[0]
    } else {
        spec_cons(
            spec_cons(reduce_with_breaks(docs, (n - 1) as nat), Doc::Break(" ")),
            *docs[n - 1],
        )
    }
}

/// A group that takes the number after `r`.
pub open spec fn next_group<'a>(doc: Doc<'a>, should_break: ShouldBreak, r: nat) -> Doc<'a> {
    spec_group(doc, should_break, (r + 1) as usize)
}

// ---------------------------------------------------------------------------
// Closures in arguments
// ---------------------------------------------------------------------------
/// `{{ ... }}`: braces whose first expression is itself a term in braces.
pub open spec fn spec_is_embracing_operator_closure(term: TermExpr) -> bool {
    &&& term.pre_delimiters matches Some(pre)
    &&& pre.token is LBrace
    &&& term.term@.len() > 0
    &&& term.term@[0] matches Expression::Term(inner)
    &&& inner.pre_delimiters matches Some(inner_pre)
    &&& inner_pre.token is LBrace
}

/// Whether an expression holds a block in braces (other than the embracing
/// operator) or a `repeat`, outside of lambdas and formulas.
pub open spec fn spec_contains_closure(e: Expression) -> bool
    decreases e, 0nat,
{
    match e {
        Expression::Symbol(_) | Expression::Literal(_) | Expression::Formula(_, _)
        | Expression::Newline(_) | Expression::Whitespace(_) | Expression::EOF(_)
        | Expression::Break(_) | Expression::Continue(_) | Expression::Comment(_) => false,
        Expression::Term(term) => {
            if spec_is_embracing_operator_closure(*term) {
                false
            } else {
                match term.pre_delimiters {
                    Some(pre) => pre.token is LBrace,
                    None => any_contains_closure(term.term@, term.term@.len()),
                }
            }
        },
        Expression::Unary(_, x) => spec_contains_closure(*x),
        Expression::Bop(_, x, y) => spec_contains_closure(*x) || spec_contains_closure(*y),
        Expression::FunctionDef(f) => any_arg_contains_closure(
            f.arguments.args@,
            f.arguments.args@.len(),
        ) || spec_contains_closure(*f.body),
        Expression::LambdaFunction(_) => false,
        Expression::IfExpression(i) => spec_contains_closure(*i.if_conditional.condition)
            || spec_contains_closure(*i.if_conditional.body) || any_else_if_contains_closure(
            i.else_ifs@,
            i.else_ifs@.len(),
        ) || (i.trailing_else matches Some(t) && spec_contains_closure(*t.body)),
        Expression::WhileExpression(w) => spec_contains_closure(*w.condition)
            || spec_contains_closure(*w.body),
        Expression::RepeatExpression(_) => true,
        Expression::FunctionCall(c) => any_arg_contains_closure(c.args.args@, c.args.args@.len()),
        Expression::SubsetExpression(s) => any_arg_contains_closure(
            s.args.args@,
            s.args.args@.len(),
        ),
        Expression::ForLoopExpression(f) => spec_contains_closure(*f.collection)
            || spec_contains_closure(*f.body),
    }
}

/// One of the first `n` expressions contains a closure.
pub open spec fn any_contains_closure(es: Seq<Expression>, n: nat) -> bool
    decreases es, n,
{
    if n == 0 || n > es.len() {
        false
    } else {
        any_contains_closure(es, (n - 1) as nat) || spec_contains_closure(es[n - 1])
    }
}

/// One of the first `n` arguments has a value that contains a closure.
pub open spec fn any_arg_contains_closure(args: Seq<Arg>, n: nat) -> bool
    decreases args, n,
{
    if n == 0 || n > args.len() {
        false
    } else {
        any_arg_contains_closure(args, (n - 1) as nat) || arg_contains_closure(args[n - 1])
    }
}

pub open spec fn arg_contains_closure(a: Arg) -> bool
    decreases a, 0nat,
{
    a.0 matches Some(e) && spec_contains_closure(e)
}

/// The body or the condition of one of the first `n` `else if` branches contains a closure.
pub open spec fn any_else_if_contains_closure(es: Seq<ElseIfConditional>, n: nat) -> bool
    decreases es, n,
{
    if n == 0 || n > es.len() {
        false
    } else {
        any_else_if_contains_closure(es, (n - 1) as nat) || spec_contains_closure(
            *es[n - 1].if_conditional.body,
        ) || spec_contains_closure(*es[n - 1].if_conditional.condition)
    }
}

/// Arguments break when there are at least two of them and one that is not
/// the last contains a closure.
pub open spec fn spec_should_break_args(args: Args) -> ShouldBreak {
    if args.args@.len() >= 2 && exists|i: int|
        0 <= i < args.args@.len() - 1 && #[trigger] arg_contains_closure(args.args@[i]) {
        ShouldBreak::Yes
    } else {
        ShouldBreak::No
    }
}

// ---------------------------------------------------------------------------
// Expressions
// ---------------------------------------------------------------------------
/// The document of an expression and the counter after it.
pub open spec fn expr_doc<'a>(e: Expression<'a>, cfg: FormattingConfig, r: nat) -> (Doc<'a>, nat)
    decreases e, 0nat,
{
    match e {
        Expression::Symbol(t) | Expression::Literal(t) | Expression::Comment(t)
        | Expression::Continue(t) | Expression::Break(t) | Expression::EOF(t) => (
            commented_token_doc(*t),
            r,
        ),
        Expression::Term(term) => term_doc(*term, cfg, r),
        Expression::Unary(op, x) => {
            let (xd, r1) = expr_doc(*x, cfg, r);
            (spec_cons(commented_token_doc(*op), xd), r1)
        },
        Expression::Bop(op, lhs, rhs) => {
            let (ld, r1) = expr_doc(*lhs, cfg, r);
            let (rd, r2) = expr_doc(*rhs, cfg, r1);
            bop_doc(*op, ld, rd, cfg, r2)
        },
        Expression::Formula(tilde, x) => {
            let (xd, r1) = expr_doc(*x, cfg, r);
            let space = if *x is Symbol {
                spec_plain_text("")
            } else {
                spec_plain_text(" ")
            };
            (spec_cons(spec_cons(commented_token_doc(*tilde), space), xd), r1)
        },
        Expression::Newline(_) => (Doc::Break("\n"), r),
        Expression::Whitespace(_) => (spec_plain_text(""), r),
        Expression::FunctionDef(f) => function_def_doc(f, cfg, r),
        Expression::IfExpression(i) => if_doc(i, cfg, r),
        Expression::WhileExpression(w) => while_doc(w, cfg, r),
        Expression::RepeatExpression(rep) => repeat_doc(rep, cfg, r),
        Expression::FunctionCall(c) => call_doc(c, cfg, r),
        Expression::SubsetExpression(s) => subset_doc(s, cfg, r),
        Expression::ForLoopExpression(f) => for_doc(f, cfg, r),
        Expression::LambdaFunction(l) => lambda_doc(l, cfg, r),
    }
}

pub open spec fn while_doc<'a>(w: WhileExpression<'a>, cfg: FormattingConfig, r: nat) -> (Doc<'a>, nat)
    decreases w, 0nat,
{
    let (cd, r1) = expr_doc(*w.condition, cfg, r);
    let (bd, r2) = expr_doc(*w.body, cfg, r1);
    (
        next_group(
            spec_cons(
                spec_cons(
                    spec_cons(
                        spec_cons(commented_token_doc(*w.while_keyword), spec_plain_text(" ")),
                        cd,
                    ),
                    spec_plain_text(" "),
                ),
                bd,
            ),
            ShouldBreak::No,
            r2,
        ),
        r2 + 1,
    )
}

pub open spec fn repeat_doc<'a>(rep: RepeatExpression<'a>, cfg: FormattingConfig, r: nat) -> (Doc<'a>, nat)
    decreases rep, 0nat,
{
    let (bd, r1) = expr_doc(*rep.body, cfg, r);
    (
        next_group(spec_cons(commented_token_doc(*rep.repeat_keyword), bd), ShouldBreak::No, r1),
        r1 + 1,
    )
}

/// A call reserves the next reference number for its group before its
/// parts are converted, so that its arguments can nest when it breaks.
pub open spec fn call_doc<'a>(c: FunctionCall<'a>, cfg: FormattingConfig, r: nat) -> (Doc<'a>, nat)
    decreases c, 0nat,
{
    let group_ref = r + 1;
    let (fd, r1) = expr_doc(*c.function_ref, cfg, group_ref);
    let (ad, r2) = args_doc(c.args, cfg, r1, Some(group_ref as usize));
    (spec_group(spec_cons(fd, ad), spec_should_break_args(c.args), group_ref as usize), r2)
}

pub open spec fn subset_doc<'a>(s: SubsetExpression<'a>, cfg: FormattingConfig, r: nat) -> (Doc<'a>, nat)
    decreases s, 0nat,
{
    let (od, r1) = expr_doc(*s.object_ref, cfg, r);
    let (ad, r2) = args_doc(s.args, cfg, r1, None);
    (next_group(spec_cons(od, ad), spec_should_break_args(s.args), r2), r2 + 1)
}

pub open spec fn for_doc<'a>(f: ForLoop<'a>, cfg: FormattingConfig, r: nat) -> (Doc<'a>, nat)
    decreases f, 0nat,
{
    let (id, r1) = expr_doc(*f.identifier, cfg, r);
    let (cd, r2) = expr_doc(*f.collection, cfg, r1);
    let head = next_group(for_head(f, id, cd, cfg), ShouldBreak::No, r2);
    let (bd, r3) = expr_doc(*f.body, cfg, r2 + 1);
    (next_group(spec_cons(spec_cons(head, spec_plain_text(" ")), bd), ShouldBreak::No, r3), r3 + 1)
}

pub open spec fn lambda_doc<'a>(l: Lambda<'a>, cfg: FormattingConfig, r: nat) -> (Doc<'a>, nat)
    decreases l, 0nat,
{
    let (ad, r1) = args_doc(l.args, cfg, r, None);
    let (bd, r2) = expr_doc(*l.body, cfg, r1);
    (
        next_group(
            spec_cons(
                spec_cons(spec_cons(commented_token_doc(*l.keyword), ad), spec_plain_text(" ")),
                bd,
            ),
            ShouldBreak::No,
            r2,
        ),
        r2 + 1,
    )
}

/// `for` and its delimited header, before it is grouped.
pub open spec fn for_head<'a>(f: ForLoop<'a>, id: Doc<'a>, cd: Doc<'a>, cfg: FormattingConfig) -> Doc<'a> {
    let inside = spec_cons(
        spec_cons(
            spec_cons(
                spec_cons(
                    spec_cons(
                        spec_cons(
                            spec_cons(spec_plain_text(" "), commented_token_doc(*f.left_delim)),
                            Doc::Break(""),
                        ),
                        id,
                    ),
                    spec_plain_text(" "),
                ),
                commented_token_doc(*f.in_keyword),
            ),
            Doc::Break(" "),
        ),
        cd,
    );
    spec_cons(
        spec_cons(
            spec_cons(commented_token_doc(*f.keyword), spec_nest(inside, cfg.indent)),
            Doc::Break(""),
        ),
        commented_token_doc(*f.right_delim),
    )
}

/// The binary operators laid out with spaces around them and a possible break after.
pub open spec fn is_spaced_operator(token: Token) -> bool {
    match token {
        Token::LAssign | Token::RAssign | Token::OldAssign | Token::Equal | Token::NotEqual
        | Token::LowerThan | Token::GreaterThan | Token::LowerEqual | Token::GreaterEqual
        | Token::Divide | Token::Multiply | Token::Minus | Token::Plus | Token::And
        | Token::VectorizedAnd | Token::Or | Token::VectorizedOr | Token::Pipe | Token::Modulo
        | Token::Tilde | Token::Special(_) => true,
        _ => false,
    }
}

/// A binary expression, from the documents of its sides, and the counter after it.
pub open spec fn bop_doc<'a>(
    op: CommentedToken<'a>,
    ld: Doc<'a>,
    rd: Doc<'a>,
    cfg: FormattingConfig,
    r: nat,
) -> (Doc<'a>, nat) {
    let od = commented_token_doc(op);
    if (op.token is OldAssign || op.token is LAssign) && !cfg.allow_nl_after_assignment {
        (
            next_group(
                spec_cons(
                    spec_cons(spec_cons(ld, spec_plain_text(" ")), od),
                    spec_cons(spec_plain_text(" "), rd),
                ),
                ShouldBreak::No,
                r,
            ),
            r + 1,
        )
    } else if is_spaced_operator(op.token) {
        (
            spec_cons(
                spec_cons(spec_cons(ld, spec_plain_text(" ")), od),
                spec_nest(spec_cons(Doc::Break(" "), rd), cfg.indent),
            ),
            r,
        )
    } else {
        (next_group(spec_cons(spec_cons(ld, od), rd), ShouldBreak::No, r), r + 1)
    }
}

/// The document of a term and the counter after it.
pub open spec fn term_doc<'a>(t: TermExpr<'a>, cfg: FormattingConfig, r: nat) -> (Doc<'a>, nat)
    decreases t, 2nat,
{
    match (t.pre_delimiters, t.post_delimiters) {
        (Some(pre), Some(post)) => {
            if is_embracing_term(t, cfg) {
                embracing_doc(t, cfg, r)
            } else if pre.token is LBrace {
                braces_doc(t, cfg, r)
            } else {
                parens_doc(t, cfg, r)
            }
        },
        (None, None) => {
            let (ds, r1) = exprs_doc(t.term@, t.term@.len(), true, cfg, r);
            (next_group(spec_join_ungroupped(ds, Doc::Nil), ShouldBreak::Yes, r1), r1 + 1)
        },
        _ => (Doc::Nil, r),
    }
}

/// Braces around a single term, with the embracing option on.
pub open spec fn is_embracing_term(t: TermExpr, cfg: FormattingConfig) -> bool {
    &&& cfg.embracing_op_no_nl
    &&& t.pre_delimiters matches Some(pre)
    &&& pre.token is LBrace
    &&& t.term@.len() == 1
    &&& t.term@[0] is Term
}

/// A term laid out as the embracing operator: `{{ x }}` on one line when the
/// inner term is in braces too, else a broken block.
pub open spec fn embracing_doc<'a>(t: TermExpr<'a>, cfg: FormattingConfig, r: nat) -> (Doc<'a>, nat)
    decreases t, 1nat,
{
    if t.term@.len() == 0 || !(t.term@[0] is Term) {
        (Doc::Nil, r)
    } else if is_double_brace(t) {
        double_brace_doc(t, cfg, r)
    } else {
        let pre_doc = commented_token_doc(*t.pre_delimiters.unwrap());
        let post_doc = commented_token_doc(*t.post_delimiters.unwrap());
        let (ds, r1) = exprs_doc(t.term@, t.term@.len(), false, cfg, r);
        let joined = next_group(spec_join_ungroupped(ds, Doc::Nil), ShouldBreak::No, r1);
        (next_group(block_doc(pre_doc, joined, post_doc, " ", cfg), ShouldBreak::Yes, r1 + 1), r1 + 2)
    }
}

/// The first expression of the term is a term in braces.
pub open spec fn is_double_brace(t: TermExpr) -> bool {
    &&& t.term@.len() > 0
    &&& t.term@[0] matches Expression::Term(inner)
    &&& inner.pre_delimiters matches Some(inner_pre)
    &&& inner_pre.token is LBrace
}

/// `{{ x }}`: both pairs of braces and the inner expressions on one line.
pub open spec fn double_brace_doc<'a>(t: TermExpr<'a>, cfg: FormattingConfig, r: nat) -> (Doc<'a>, nat)
    decreases t, 0nat,
{
    if t.term@.len() == 0 || !(t.term@[0] is Term) {
        (Doc::Nil, r)
    } else {
        let inner = *(t.term@[0]->Term_0);
        let pre_doc = commented_token_doc(*t.pre_delimiters.unwrap());
        let post_doc = commented_token_doc(*t.post_delimiters.unwrap());
        let (ds, r1) = exprs_doc(inner.term@, inner.term@.len(), false, cfg, r);
        let joined = next_group(spec_join_ungroupped(ds, Doc::Nil), ShouldBreak::No, r1);
        let inner_pre_doc = commented_token_doc(*inner.pre_delimiters.unwrap());
        let inner_post_doc = commented_token_doc(*inner.post_delimiters.unwrap());
        let d = spec_cons(
            spec_cons(
                spec_cons(
                    spec_cons(spec_cons(spec_cons(pre_doc, inner_pre_doc), spec_plain_text(" ")), joined),
                    spec_plain_text(" "),
                ),
                inner_post_doc,
            ),
            post_doc,
        );
        (next_group(d, ShouldBreak::No, r1 + 1), r1 + 2)
    }
}

/// A term in braces: each expression grouped, all of them broken apart.
pub open spec fn braces_doc<'a>(t: TermExpr<'a>, cfg: FormattingConfig, r: nat) -> (Doc<'a>, nat)
    decreases t, 0nat,
{
    let pre_doc = commented_token_doc(*t.pre_delimiters.unwrap());
    let post_doc = commented_token_doc(*t.post_delimiters.unwrap());
    if t.term@.len() == 0 {
        (
            spec_group(
                spec_cons(spec_nest(spec_cons(pre_doc, Doc::Break("")), cfg.indent), post_doc),
                ShouldBreak::No,
                1,
            ),
            r,
        )
    } else {
        let (ds, r1) = exprs_doc(t.term@, t.term@.len(), true, cfg, r);
        let joined = next_group(spec_join_ungroupped(ds, Doc::Nil), ShouldBreak::Yes, r1);
        (next_group(block_doc(pre_doc, joined, post_doc, " ", cfg), ShouldBreak::Yes, r1 + 1), r1 + 2)
    }
}

/// A term in other delimiters: the expressions joined, nested when broken.
pub open spec fn parens_doc<'a>(t: TermExpr<'a>, cfg: FormattingConfig, r: nat) -> (Doc<'a>, nat)
    decreases t, 0nat,
{
    let pre_doc = commented_token_doc(*t.pre_delimiters.unwrap());
    let post_doc = commented_token_doc(*t.post_delimiters.unwrap());
    if t.term@.len() == 0 {
        (spec_cons(pre_doc, post_doc), r)
    } else {
        let (ds, r1) = exprs_doc(t.term@, t.term@.len(), false, cfg, r);
        let joined = next_group(spec_join_ungroupped(ds, Doc::Nil), ShouldBreak::No, r1);
        (next_group(block_doc(pre_doc, joined, post_doc, "", cfg), ShouldBreak::No, r1 + 1), r1 + 2)
    }
}

/// An opening delimiter, the nested inside after a break, a break and the closing delimiter.
pub open spec fn block_doc<'a>(
    pre: Doc<'a>,
    inside: Doc<'a>,
    post: Doc<'a>,
    brk: &'a str,
    cfg: FormattingConfig,
) -> Doc<'a> {
    spec_cons(
        spec_cons(spec_cons(pre, spec_nest(spec_cons(Doc::Break(brk), inside), cfg.indent)), Doc::Break(brk)),
        post,
    )
}

/// The documents of the first `n` expressions, each grouped when `grouped`,
/// and the counter after them.
pub open spec fn exprs_doc<'a>(
    es: Seq<Expression<'a>>,
    n: nat,
    grouped: bool,
    cfg: FormattingConfig,
    r: nat,
) -> (Seq<Rc<Doc<'a>>>, nat)
    decreases es, n,
{
    if n == 0 || n > es.len() {
        (Seq::empty(), r)
    } else {
        let (ds, r1) = exprs_doc(es, (n - 1) as nat, grouped, cfg, r);
        let (d, r2) = expr_doc(es[n - 1], cfg, r1);
        if grouped {
            (ds.push(Rc::new(next_group(d, ShouldBreak::No, r2))), r2 + 1)
        } else {
            (ds.push(Rc::new(d)), r2)
        }
    }
}

/// The document of an optional expression: the empty text when absent.
pub open spec fn opt_expr_doc<'a>(e: Option<Expression<'a>>, cfg: FormattingConfig, r: nat) -> (
    Doc<'a>,
    nat,
)
    decreases e, 0nat,
{
    match e {
        Some(x) => expr_doc(x, cfg, r),
        None => (spec_plain_text(""), r),
    }
}

/// The document of an argument: its value and its comma.
pub open spec fn arg_doc<'a>(a: Arg<'a>, cfg: FormattingConfig, r: nat) -> (Doc<'a>, nat)
    decreases a, 0nat,
{
    let (vd, r1) = opt_expr_doc(a.0, cfg, r);
    match a.1 {
        Some(comma) => (spec_cons(vd, commented_token_doc(*comma)), r1),
        None => (vd, r1),
    }
}

/// The grouped documents of the first `n` arguments and the counter after them.
pub open spec fn arg_list_doc<'a>(args: Seq<Arg<'a>>, n: nat, cfg: FormattingConfig, r: nat) -> (
    Seq<Rc<Doc<'a>>>,
    nat,
)
    decreases args, n,
{
    if n == 0 || n > args.len() {
        (Seq::empty(), r)
    } else {
        let (ds, r1) = arg_list_doc(args, (n - 1) as nat, cfg, r);
        let (d, r2) = arg_doc(args[n - 1], cfg, r1);
        (ds.push(Rc::new(next_group(d, ShouldBreak::No, r2))), r2 + 1)
    }
}

/// The arguments between their delimiters. With `Some(observed)` the inside
/// nests only when the document `observed` breaks.
pub open spec fn args_doc<'a>(a: Args<'a>, cfg: FormattingConfig, r: nat, observed: Option<usize>) -> (
    Doc<'a>,
    nat,
)
    decreases a, 0nat,
{
    let (ds, r1) = arg_list_doc(a.args@, a.args@.len(), cfg, r);
    let left = delimiter_doc(a.left_delimeter);
    let right = delimiter_doc(a.right_delimeter);
    if ds.len() > 0 {
        let inside = spec_cons(Doc::Break(""), reduce_with_breaks(ds, ds.len()));
        let nested = match observed {
            Some(o) => spec_nest_if_break(inside, cfg.indent, o),
            None => spec_nest(inside, cfg.indent),
        };
        (spec_cons(spec_cons(spec_cons(left, nested), Doc::Break("")), right), r1)
    } else {
        (spec_cons(left, right), r1)
    }
}

/// The grouped documents of the first `n` arguments of a function definition
/// (value, then comma or nothing) and the counter after them.
pub open spec fn param_list_doc<'a>(args: Seq<Arg<'a>>, n: nat, cfg: FormattingConfig, r: nat) -> (
    Seq<Rc<Doc<'a>>>,
    nat,
)
    decreases args, n,
{
    if n == 0 || n > args.len() {
        (Seq::empty(), r)
    } else {
        let (ds, r1) = param_list_doc(args, (n - 1) as nat, cfg, r);
        let (vd, r2) = opt_expr_doc(args[n - 1].0, cfg, r1);
        let comma = match args[n - 1].1 {
            Some(c) => commented_token_doc(*c),
            None => Doc::Nil,
        };
        (ds.push(Rc::new(next_group(spec_cons(vd, comma), ShouldBreak::No, r2))), r2 + 1)
    }
}

/// The parameters between their delimiters, laid out as the configuration says.
pub open spec fn params_group<'a>(a: Args<'a>, params: Doc<'a>, cfg: FormattingConfig) -> Doc<'a> {
    let left = delimiter_doc(a.left_delimeter);
    let right = delimiter_doc(a.right_delimeter);
    match cfg.function_line_breaks {
        FunctionLineBreaks::Hanging => spec_cons(spec_cons(left, spec_nest_hanging(params)), right),
        FunctionLineBreaks::Double => spec_cons(
            spec_cons(
                spec_nest(spec_cons(spec_cons(left, Doc::Break("")), params), (2 * cfg.indent) as i32),
                Doc::Break(""),
            ),
            right,
        ),
        FunctionLineBreaks::Single => spec_cons(
            spec_cons(spec_nest(spec_cons(spec_cons(left, Doc::Break("")), params), cfg.indent), Doc::Break("")),
            right,
        ),
    }
}

pub open spec fn function_def_doc<'a>(f: FunctionDefinition<'a>, cfg: FormattingConfig, r: nat) -> (
    Doc<'a>,
    nat,
)
    decreases f, 0nat,
{
    let (ps, r1) = param_list_doc(f.arguments.args@, f.arguments.args@.len(), cfg, r);
    let params = spec_join_ungroupped(ps, Doc::Nil);
    let args_group = next_group(params_group(f.arguments, params, cfg), ShouldBreak::No, r1);
    let (bd, r2) = expr_doc(*f.body, cfg, r1 + 1);
    (
        next_group(
            spec_cons(
                spec_cons(spec_cons(commented_token_doc(*f.keyword), args_group), spec_plain_text(" ")),
                bd,
            ),
            ShouldBreak::No,
            r2,
        ),
        r2 + 1,
    )
}

/// `if (condition) body`, and the counter after it.
pub open spec fn if_conditional_doc<'a>(c: IfConditional<'a>, cfg: FormattingConfig, r: nat) -> (
    Doc<'a>,
    nat,
)
    decreases c, 0nat,
{
    let (cd, r1) = expr_doc(*c.condition, cfg, r);
    let condition = next_group(
        spec_cons(
            spec_cons(
                spec_nest(
                    spec_cons(spec_cons(commented_token_doc(*c.left_delimiter), Doc::Break("")), cd),
                    cfg.indent,
                ),
                Doc::Break(""),
            ),
            commented_token_doc(*c.right_delimiter),
        ),
        ShouldBreak::No,
        r1,
    );
    let (bd, r2) = expr_doc(*c.body, cfg, r1 + 1);
    (
        spec_cons(
            spec_cons(
                spec_cons(spec_cons(commented_token_doc(*c.keyword), spec_plain_text(" ")), condition),
                spec_plain_text(" "),
            ),
            bd,
        ),
        r2,
    )
}

/// A document followed by a space, a keyword, a space and a second document.
pub open spec fn after_keyword<'a>(doc: Doc<'a>, keyword: CommentedToken<'a>, next: Doc<'a>) -> Doc<'a> {
    spec_cons(
        spec_cons(spec_cons(spec_cons(doc, spec_plain_text(" ")), commented_token_doc(keyword)), spec_plain_text(" ")),
        next,
    )
}

/// The `if` branch `first` followed by the first `n` `else if` branches.
pub open spec fn else_ifs_doc<'a>(
    es: Seq<ElseIfConditional<'a>>,
    n: nat,
    first: Doc<'a>,
    cfg: FormattingConfig,
    r: nat,
) -> (Doc<'a>, nat)
    decreases es, n,
{
    if n == 0 || n > es.len() {
        (first, r)
    } else {
        let (d, r1) = else_ifs_doc(es, (n - 1) as nat, first, cfg, r);
        let (cd, r2) = if_conditional_doc(es[n - 1].if_conditional, cfg, r1);
        (after_keyword(d, *es[n - 1].else_keyword, cd), r2)
    }
}

pub open spec fn if_doc<'a>(i: IfExpression<'a>, cfg: FormattingConfig, r: nat) -> (Doc<'a>, nat)
    decreases i, 0nat,
{
    let (first, r1) = if_conditional_doc(i.if_conditional, cfg, r);
    let (d, r2) = else_ifs_doc(i.else_ifs@, i.else_ifs@.len(), first, cfg, r1);
    match i.trailing_else {
        Some(t) => {
            let (bd, r3) = expr_doc(*t.body, cfg, r2);
            (after_keyword(d, *t.else_keyword, bd), r3)
        },
        None => (d, r2),
    }
}

} // verus!

verus! {

// ---------------------------------------------------------------------------
// The counter never goes down
// ---------------------------------------------------------------------------
pub proof fn lemma_expr_doc_mono<'a>(e: Expression<'a>, cfg: FormattingConfig, r: nat)
    ensures
        expr_doc(e, cfg, r).1 >= r,
    decreases e, 0nat,
{
    match e {
        Expression::Term(term) => {
            lemma_term_doc_mono(*term, cfg, r);
        },
        Expression::Unary(_, x) => {
            lemma_expr_doc_mono(*x, cfg, r);
        },
        Expression::Bop(_, lhs, rhs) => {
            lemma_expr_doc_mono(*lhs, cfg, r);
            lemma_expr_doc_mono(*rhs, cfg, expr_doc(*lhs, cfg, r).1);
        },
        Expression::Formula(_, x) => {
            lemma_expr_doc_mono(*x, cfg, r);
        },
        Expression::FunctionDef(f) => {
            lemma_function_def_doc_mono(f, cfg, r);
        },
        Expression::IfExpression(i) => {
            lemma_if_doc_mono(i, cfg, r);
        },
        Expression::WhileExpression(w) => {
            lemma_while_doc_mono(w, cfg, r);
        },
        Expression::RepeatExpression(rep) => {
            lemma_repeat_doc_mono(rep, cfg, r);
        },
        Expression::FunctionCall(c) => {
            lemma_call_doc_mono(c, cfg, r);
        },
        Expression::SubsetExpression(s) => {
            lemma_subset_doc_mono(s, cfg, r);
        },
        Expression::ForLoopExpression(f) => {
            lemma_for_doc_mono(f, cfg, r);
        },
        Expression::LambdaFunction(l) => {
            lemma_lambda_doc_mono(l, cfg, r);
        },
        _ => {
        },
    }
}

pub proof fn lemma_repeat_doc_mono<'a>(rep: RepeatExpression<'a>, cfg: FormattingConfig, r: nat)
    ensures
        repeat_doc(rep, cfg, r).1 >= r,
    decreases rep, 0nat,
{
    lemma_expr_doc_mono(*rep.body, cfg, r);
}

pub proof fn lemma_while_doc_mono<'a>(w: WhileExpression<'a>, cfg: FormattingConfig, r: nat)
    ensures
        while_doc(w, cfg, r).1 >= r,
    decreases w, 0nat,
{
    lemma_expr_doc_mono(*w.condition, cfg, r);
    lemma_expr_doc_mono(*w.body, cfg, expr_doc(*w.condition, cfg, r).1);
}

pub proof fn lemma_call_doc_mono<'a>(c: FunctionCall<'a>, cfg: FormattingConfig, r: nat)
    ensures
        call_doc(c, cfg, r).1 >= r,
    decreases c, 0nat,
{
    lemma_expr_doc_mono(*c.function_ref, cfg, r + 1);
    let r1 = expr_doc(*c.function_ref, cfg, r + 1).1;
    lemma_args_doc_mono(c.args, cfg, r1, Some((r + 1) as usize));
}

pub proof fn lemma_subset_doc_mono<'a>(s: SubsetExpression<'a>, cfg: FormattingConfig, r: nat)
    ensures
        subset_doc(s, cfg, r).1 >= r,
    decreases s, 0nat,
{
    lemma_expr_doc_mono(*s.object_ref, cfg, r);
    lemma_args_doc_mono(s.args, cfg, expr_doc(*s.object_ref, cfg, r).1, None);
}

pub proof fn lemma_for_doc_mono<'a>(f: ForLoop<'a>, cfg: FormattingConfig, r: nat)
    ensures
        for_doc(f, cfg, r).1 >= r,
    decreases f, 0nat,
{
    lemma_expr_doc_mono(*f.identifier, cfg, r);
    let r1 = expr_doc(*f.identifier, cfg, r).1;
    lemma_expr_doc_mono(*f.collection, cfg, r1);
    let r2 = expr_doc(*f.collection, cfg, r1).1;
    lemma_expr_doc_mono(*f.body, cfg, r2 + 1);
}

pub proof fn lemma_lambda_doc_mono<'a>(l: Lambda<'a>, cfg: FormattingConfig, r: nat)
    ensures
        lambda_doc(l, cfg, r).1 >= r,
    decreases l, 0nat,
{
    lemma_args_doc_mono(l.args, cfg, r, None);
    lemma_expr_doc_mono(*l.body, cfg, args_doc(l.args, cfg, r, None).1);
}

pub proof fn lemma_term_doc_mono<'a>(t: TermExpr<'a>, cfg: FormattingConfig, r: nat)
    ensures
        term_doc(t, cfg, r).1 >= r,
    decreases t, 2nat,
{
    lemma_exprs_doc_mono(t.term@, t.term@.len(), true, cfg, r);
    lemma_exprs_doc_mono(t.term@, t.term@.len(), false, cfg, r);
    lemma_embracing_doc_mono(t, cfg, r);
}

pub proof fn lemma_embracing_doc_mono<'a>(t: TermExpr<'a>, cfg: FormattingConfig, r: nat)
    ensures
        embracing_doc(t, cfg, r).1 >= r,
    decreases t, 1nat,
{
    lemma_exprs_doc_mono(t.term@, t.term@.len(), false, cfg, r);
    lemma_double_brace_doc_mono(t, cfg, r);
}

pub proof fn lemma_double_brace_doc_mono<'a>(t: TermExpr<'a>, cfg: FormattingConfig, r: nat)
    ensures
        double_brace_doc(t, cfg, r).1 >= r,
    decreases t, 0nat,
{
    if t.term@.len() > 0 && t.term@[0] is Term {
        let inner = *(t.term@[0]->Term_0);
        lemma_exprs_doc_mono(inner.term@, inner.term@.len(), false, cfg, r);
    }
}

pub proof fn lemma_exprs_doc_mono<'a>(
    es: Seq<Expression<'a>>,
    n: nat,
    grouped: bool,
    cfg: FormattingConfig,
    r: nat,
)
    ensures
        exprs_doc(es, n, grouped, cfg, r).1 >= r,
    decreases es, n,
{
    if n == 0 || n > es.len() {
    } else {
        lemma_exprs_doc_mono(es, (n - 1) as nat, grouped, cfg, r);
        lemma_expr_doc_mono(es[n - 1], cfg, exprs_doc(es, (n - 1) as nat, grouped, cfg, r).1);
    }
}

pub proof fn lemma_opt_expr_doc_mono<'a>(e: Option<Expression<'a>>, cfg: FormattingConfig, r: nat)
    ensures
        opt_expr_doc(e, cfg, r).1 >= r,
    decreases e, 0nat,
{
    if let Some(x) = e {
        lemma_expr_doc_mono(x, cfg, r);
    }
}

pub proof fn lemma_arg_doc_mono<'a>(a: Arg<'a>, cfg: FormattingConfig, r: nat)
    ensures
        arg_doc(a, cfg, r).1 >= r,
    decreases a, 0nat,
{
    lemma_opt_expr_doc_mono(a.0, cfg, r);
}

pub proof fn lemma_arg_list_doc_mono<'a>(args: Seq<Arg<'a>>, n: nat, cfg: FormattingConfig, r: nat)
    ensures
        arg_list_doc(args, n, cfg, r).1 >= r,
    decreases args, n,
{
    if n == 0 || n > args.len() {
    } else {
        lemma_arg_list_doc_mono(args, (n - 1) as nat, cfg, r);
        lemma_arg_doc_mono(args[n - 1], cfg, arg_list_doc(args, (n - 1) as nat, cfg, r).1);
    }
}

pub proof fn lemma_args_doc_mono<'a>(
    a: Args<'a>,
    cfg: FormattingConfig,
    r: nat,
    observed: Option<usize>,
)
    ensures
        args_doc(a, cfg, r, observed).1 >= r,
    decreases a, 0nat,
{
    lemma_arg_list_doc_mono(a.args@, a.args@.len(), cfg, r);
}

pub proof fn lemma_param_list_doc_mono<'a>(
    args: Seq<Arg<'a>>,
    n: nat,
    cfg: FormattingConfig,
    r: nat,
)
    ensures
        param_list_doc(args, n, cfg, r).1 >= r,
    decreases args, n,
{
    if n == 0 || n > args.len() {
    } else {
        lemma_param_list_doc_mono(args, (n - 1) as nat, cfg, r);
        lemma_opt_expr_doc_mono(args[n - 1].0, cfg, param_list_doc(args, (n - 1) as nat, cfg, r).1);
    }
}

pub proof fn lemma_function_def_doc_mono<'a>(
    f: FunctionDefinition<'a>,
    cfg: FormattingConfig,
    r: nat,
)
    ensures
        function_def_doc(f, cfg, r).1 >= r,
    decreases f, 0nat,
{
    lemma_param_list_doc_mono(f.arguments.args@, f.arguments.args@.len(), cfg, r);
    let r1 = param_list_doc(f.arguments.args@, f.arguments.args@.len(), cfg, r).1;
    lemma_expr_doc_mono(*f.body, cfg, r1 + 1);
}

pub proof fn lemma_if_conditional_doc_mono<'a>(c: IfConditional<'a>, cfg: FormattingConfig, r: nat)
    ensures
        if_conditional_doc(c, cfg, r).1 >= r,
    decreases c, 0nat,
{
    lemma_expr_doc_mono(*c.condition, cfg, r);
    lemma_expr_doc_mono(*c.body, cfg, expr_doc(*c.condition, cfg, r).1 + 1);
}

pub proof fn lemma_else_ifs_doc_mono<'a>(
    es: Seq<ElseIfConditional<'a>>,
    n: nat,
    first: Doc<'a>,
    cfg: FormattingConfig,
    r: nat,
)
    ensures
        else_ifs_doc(es, n, first, cfg, r).1 >= r,
    decreases es, n,
{
    if n == 0 || n > es.len() {
    } else {
        lemma_else_ifs_doc_mono(es, (n - 1) as nat, first, cfg, r);
        lemma_if_conditional_doc_mono(
            es[n - 1].if_conditional,
            cfg,
            else_ifs_doc(es, (n - 1) as nat, first, cfg, r).1,
        );
    }
}

pub proof fn lemma_if_doc_mono<'a>(i: IfExpression<'a>, cfg: FormattingConfig, r: nat)
    ensures
        if_doc(i, cfg, r).1 >= r,
    decreases i, 0nat,
{
    lemma_if_conditional_doc_mono(i.if_conditional, cfg, r);
    let first = if_conditional_doc(i.if_conditional, cfg, r).0;
    let r1 = if_conditional_doc(i.if_conditional, cfg, r).1;
    lemma_else_ifs_doc_mono(i.else_ifs@, i.else_ifs@.len(), first, cfg, r1);
    let r2 = else_ifs_doc(i.else_ifs@, i.else_ifs@.len(), first, cfg, r1).1;
    match i.trailing_else {
        Some(t) => lemma_expr_doc_mono(*t.body, cfg, r2),
        None => {},
    }
}

// ---------------------------------------------------------------------------
// A longer prefix of a list ends with a larger counter
// ---------------------------------------------------------------------------
pub proof fn lemma_exprs_doc_prefix<'a>(
    es: Seq<Expression<'a>>,
    m: nat,
    n: nat,
    grouped: bool,
    cfg: FormattingConfig,
    r: nat,
)
    requires
        m <= n <= es.len(),
    ensures
        exprs_doc(es, m, grouped, cfg, r).1 <= exprs_doc(es, n, grouped, cfg, r).1,
    decreases n,
{
    if m < n {
        lemma_exprs_doc_prefix(es, m, (n - 1) as nat, grouped, cfg, r);
        lemma_expr_doc_mono(es[n - 1], cfg, exprs_doc(es, (n - 1) as nat, grouped, cfg, r).1);
    }
}

pub proof fn lemma_arg_list_doc_prefix<'a>(
    args: Seq<Arg<'a>>,
    m: nat,
    n: nat,
    cfg: FormattingConfig,
    r: nat,
)
    requires
        m <= n <= args.len(),
    ensures
        arg_list_doc(args, m, cfg, r).1 <= arg_list_doc(args, n, cfg, r).1,
    decreases n,
{
    if m < n {
        lemma_arg_list_doc_prefix(args, m, (n - 1) as nat, cfg, r);
        lemma_arg_doc_mono(args[n - 1], cfg, arg_list_doc(args, (n - 1) as nat, cfg, r).1);
    }
}

pub proof fn lemma_param_list_doc_prefix<'a>(
    args: Seq<Arg<'a>>,
    m: nat,
    n: nat,
    cfg: FormattingConfig,
    r: nat,
)
    requires
        m <= n <= args.len(),
    ensures
        param_list_doc(args, m, cfg, r).1 <= param_list_doc(args, n, cfg, r).1,
    decreases n,
{
    if m < n {
        lemma_param_list_doc_prefix(args, m, (n - 1) as nat, cfg, r);
        lemma_opt_expr_doc_mono(args[n - 1].0, cfg, param_list_doc(args, (n - 1) as nat, cfg, r).1);
    }
}

pub proof fn lemma_else_ifs_doc_prefix<'a>(
    es: Seq<ElseIfConditional<'a>>,
    m: nat,
    n: nat,
    first: Doc<'a>,
    cfg: FormattingConfig,
    r: nat,
)
    requires
        m <= n <= es.len(),
    ensures
        else_ifs_doc(es, m, first, cfg, r).1 <= else_ifs_doc(es, n, first, cfg, r).1,
    decreases n,
{
    if m < n {
        lemma_else_ifs_doc_prefix(es, m, (n - 1) as nat, first, cfg, r);
        lemma_if_conditional_doc_mono(
            es[n - 1].if_conditional,
            cfg,
            else_ifs_doc(es, (n - 1) as nat, first, cfg, r).1,
        );
    }
}

} // verus!

verus! {

// ---------------------------------------------------------------------------
// The shape of a join
// ---------------------------------------------------------------------------
proof fn lemma_join_prefix_shape<'a>(docs: Seq<Rc<Doc<'a>>>, separator: Doc<'a>, n: nat)
    requires
        n <= docs.len(),
    ensures
        (exists|i: int| 0 <= i < n && !(*docs[i] is Nil)) <==> join_prefix(docs, separator, n) is Cons,
        !(join_prefix(docs, separator, n) is Cons) ==> join_prefix(docs, separator, n) is Nil,
    decreases n,
{
    if n > 1 {
        lemma_join_prefix_shape(docs, separator, (n - 1) as nat);
        if exists|i: int| 0 <= i < n - 1 && !(*docs[i] is Nil) {
            let i = choose|i: int| 0 <= i < n - 1 && !(*docs[i] is Nil);
            assert(0 <= i < n && !(*docs[i] is Nil));
        }
    } else if n == 1 {
        assert(!(*docs[0] is Nil) ==> (0 <= 0 < n && !(*docs[0] is Nil)));
    }
}

/// Joining documents always gives a `Cons`; where every document is `Nil` (or
/// there is none) it is the `Cons` of two `Nil` documents.
pub proof fn law_join_ungroupped_shape<'a>(docs: Seq<Rc<Doc<'a>>>, separator: Doc<'a>)
    ensures
        spec_join_ungroupped(docs, separator) is Cons,
        (forall|i: int| 0 <= i < docs.len() ==> *docs[i] is Nil) ==> spec_join_ungroupped(
            docs,
            separator,
        ) == spec_cons(Doc::Nil, Doc::Nil),
{
    lemma_join_prefix_shape(docs, separator, docs.len());
}

proof fn lemma_join_prefix_insert_nil<'a>(
    docs: Seq<Rc<Doc<'a>>>,
    separator: Doc<'a>,
    k: int,
    nil_doc: Rc<Doc<'a>>,
    n: nat,
)
    requires
        1 <= k <= docs.len(),
        *nil_doc is Nil,
        n <= docs.len(),
    ensures
        n <= k ==> join_prefix(docs.insert(k, nil_doc), separator, n) == join_prefix(
            docs,
            separator,
            n,
        ),
        n >= k ==> join_prefix(docs.insert(k, nil_doc), separator, n + 1) == join_prefix(
            docs,
            separator,
            n,
        ),
    decreases n,
{
    let ins = docs.insert(k, nil_doc);
    if n > 0 {
        lemma_join_prefix_insert_nil(docs, separator, k, nil_doc, (n - 1) as nat);
    }
    if n <= k && n >= 1 {
        assert(ins[n - 1] == docs[n - 1]);
    }
    if n >= k {
        if n == k {
            assert(ins[k] == nil_doc);
        } else {
            assert(ins[n as int] == docs[n - 1]);
        }
    }
}

/// `Nil` documents anywhere but at position 0 change nothing in a join: they
/// bring neither a separator nor a break.
pub proof fn law_join_ignores_nil<'a>(
    docs: Seq<Rc<Doc<'a>>>,
    separator: Doc<'a>,
    k: int,
    nil_doc: Rc<Doc<'a>>,
)
    requires
        1 <= k <= docs.len(),
        *nil_doc is Nil,
    ensures
        spec_join_ungroupped(docs.insert(k, nil_doc), separator) == spec_join_ungroupped(
            docs,
            separator,
        ),
{
    lemma_join_prefix_insert_nil(docs, separator, k, nil_doc, docs.len());
}

/// The documents with every `Nil` after position 0 left out; the document at
/// position 0 stays whatever it is.
pub open spec fn without_later_nils<'a>(docs: Seq<Rc<Doc<'a>>>) -> Seq<Rc<Doc<'a>>>
    decreases docs.len(),
{
    if docs.len() <= 1 {
        docs
    } else if *docs[docs.len() - 1] is Nil {
        without_later_nils(docs.drop_last())
    } else {
        without_later_nils(docs.drop_last()).push(docs.last())
    }
}

proof fn lemma_without_later_nils_len<'a>(docs: Seq<Rc<Doc<'a>>>)
    requires
        docs.len() >= 1,
    ensures
        without_later_nils(docs).len() >= 1,
    decreases docs.len(),
{
    if docs.len() > 1 {
        lemma_without_later_nils_len(docs.drop_last());
    }
}

/// A join of the first `n` documents reads only those documents.
proof fn lemma_join_prefix_same_prefix<'a>(
    docs1: Seq<Rc<Doc<'a>>>,
    docs2: Seq<Rc<Doc<'a>>>,
    separator: Doc<'a>,
    n: nat,
)
    requires
        n <= docs1.len(),
        n <= docs2.len(),
        forall|i: int| 0 <= i < n ==> docs1[i] == docs2[i],
    ensures
        join_prefix(docs1, separator, n) == join_prefix(docs2, separator, n),
    decreases n,
{
    if n > 0 {
        lemma_join_prefix_same_prefix(docs1, docs2, separator, (n - 1) as nat);
        assert(docs1[n - 1] == docs2[n - 1]);
        assert(docs1[0] == docs2[0]);
    }
}

proof fn lemma_join_prefix_without_later_nils<'a>(docs: Seq<Rc<Doc<'a>>>, separator: Doc<'a>)
    ensures
        join_prefix(docs, separator, docs.len()) == join_prefix(
            without_later_nils(docs),
            separator,
            without_later_nils(docs).len(),
        ),
    decreases docs.len(),
{
    if docs.len() > 1 {
        let prev = docs.drop_last();
        let w_prev = without_later_nils(prev);
        lemma_join_prefix_without_later_nils(prev, separator);
        lemma_without_later_nils_len(prev);
        lemma_join_prefix_same_prefix(docs, prev, separator, prev.len());
        let w = w_prev.push(docs.last());
        lemma_join_prefix_same_prefix(w, w_prev, separator, w_prev.len());
        assert(w[w.len() - 1] == docs.last());
    }
}

/// `Nil` documents after position 0 change nothing in a join, however many
/// are removed or inserted: two lists that are the same once they are left
/// out join to the same document.
pub proof fn law_join_ignores_later_nils<'a>(
    docs1: Seq<Rc<Doc<'a>>>,
    docs2: Seq<Rc<Doc<'a>>>,
    separator: Doc<'a>,
)
    requires
        without_later_nils(docs1) == without_later_nils(docs2),
    ensures
        spec_join_ungroupped(docs1, separator) == spec_join_ungroupped(docs2, separator),
        spec_join_ungroupped(docs1, separator) == spec_join_ungroupped(
            without_later_nils(docs1),
            separator,
        ),
{
    lemma_join_prefix_without_later_nils(docs1, separator);
    lemma_join_prefix_without_later_nils(docs2, separator);
    lemma_join_prefix_without_later_nils(without_later_nils(docs1), separator);
    lemma_without_later_nils_idempotent(docs1);
}

proof fn lemma_without_later_nils_idempotent<'a>(docs: Seq<Rc<Doc<'a>>>)
    ensures
        without_later_nils(without_later_nils(docs)) == without_later_nils(docs),
    decreases docs.len(),
{
    if docs.len() > 1 {
        let w_prev = without_later_nils(docs.drop_last());
        lemma_without_later_nils_idempotent(docs.drop_last());
        lemma_without_later_nils_len(docs.drop_last());
        let w = w_prev.push(docs.last());
        assert(w.drop_last() =~= w_prev);
        assert(w.last() == docs.last());
    }
}

/// Joining documents and grouping them gives a group.
pub proof fn law_join_docs_is_group<'a>(
    docs: Seq<Rc<Doc<'a>>>,
    separator: Doc<'a>,
    should_break: ShouldBreak,
    doc_ref: usize,
)
    ensures
        spec_group(spec_join_ungroupped(docs, separator), should_break, doc_ref) is Group,
{
}

} // verus!

verus! {

// ---------------------------------------------------------------------------
// Laws on the counter and on the conditional nest
// ---------------------------------------------------------------------------
/// Converting an expression never moves the reference counter backwards: the
/// counter after it is at least the counter before it.
pub proof fn law_counter_never_decreases<'a>(e: Expression<'a>, cfg: FormattingConfig, r: nat)
    ensures
        expr_doc(e, cfg, r).1 >= r,
{
    lemma_expr_doc_mono(e, cfg, r);
}

proof fn lemma_arg_list_doc_len<'a>(args: Seq<Arg<'a>>, n: nat, cfg: FormattingConfig, r: nat)
    requires
        n <= args.len(),
    ensures
        arg_list_doc(args, n, cfg, r).0.len() == n,
    decreases n,
{
    if n > 0 {
        lemma_arg_list_doc_len(args, (n - 1) as nat, cfg, r);
    }
}

/// The inside of non-empty arguments: a break, then the arguments with breaks
/// between them.
pub open spec fn args_inside<'a>(a: Args<'a>, cfg: FormattingConfig, r: nat) -> Doc<'a> {
    let ds = arg_list_doc(a.args@, a.args@.len(), cfg, r).0;
    spec_cons(Doc::Break(""), reduce_with_breaks(ds, ds.len()))
}

/// Arguments between delimiters: the left delimiter, the nested inside, a
/// break and the right delimiter.
pub open spec fn delimited<'a>(left: Doc<'a>, nested: Doc<'a>, right: Doc<'a>) -> Doc<'a> {
    spec_cons(spec_cons(spec_cons(left, nested), Doc::Break("")), right)
}

/// Arguments converted with a conditional nest differ from arguments converted
/// plainly only in the nest of their inside, which applies only when the
/// observed document breaks; without arguments the two are the same, and the
/// counter ends at the same number either way.
pub proof fn law_conditional_nest_differs_only_in_nest<'a>(
    a: Args<'a>,
    cfg: FormattingConfig,
    r: nat,
    observed: usize,
)
    ensures
        args_doc(a, cfg, r, Some(observed)).1 == args_doc(a, cfg, r, None).1,
        a.args@.len() == 0 ==> args_doc(a, cfg, r, Some(observed)).0 == args_doc(
            a,
            cfg,
            r,
            None,
        ).0,
        a.args@.len() > 0 ==> args_doc(a, cfg, r, None).0 == delimited(
            delimiter_doc(a.left_delimeter),
            spec_nest(args_inside(a, cfg, r), cfg.indent),
            delimiter_doc(a.right_delimeter),
        ),
        a.args@.len() > 0 ==> args_doc(a, cfg, r, Some(observed)).0 == delimited(
            delimiter_doc(a.left_delimeter),
            spec_nest_if_break(args_inside(a, cfg, r), cfg.indent, observed),
            delimiter_doc(a.right_delimeter),
        ),
{
    lemma_arg_list_doc_len(a.args@, a.args@.len(), cfg, r);
}

} // verus!

verus! {

// ---------------------------------------------------------------------------
// When arguments break
// ---------------------------------------------------------------------------
/// An argument that contains a closure and is not the last one makes all the
/// arguments break, wherever it stands before the last.
pub proof fn law_closure_before_last_breaks_args(args: Args, i: int)
    requires
        0 <= i < args.args@.len() - 1,
        arg_contains_closure(args.args@[i]),
    ensures
        spec_should_break_args(args) == ShouldBreak::Yes,
{
}

/// Arguments whose closures, if any, are all in the last argument do not
/// break.
pub proof fn law_no_closure_before_last_keeps_args(args: Args)
    requires
        forall|i: int| 0 <= i < args.args@.len() - 1 ==> !arg_contains_closure(#[trigger] args.args@[i]),
    ensures
        spec_should_break_args(args) == ShouldBreak::No,
{
}

/// A block in braces (other than the embracing operator) and a `repeat` loop
/// are closures; a lambda and a formula are not.
pub proof fn law_what_is_a_closure(e: Expression)
    ensures
        e matches Expression::Term(t) && t.pre_delimiters matches Some(pre) && pre.token is LBrace
            && !spec_is_embracing_operator_closure(*t) ==> spec_contains_closure(e),
        e is RepeatExpression ==> spec_contains_closure(e),
        e is LambdaFunction ==> !spec_contains_closure(e),
        e is Formula ==> !spec_contains_closure(e),
{
}

} // verus!
