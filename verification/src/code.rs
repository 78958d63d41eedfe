//! Conversion of tokens and syntax trees into documents.
use crate::ast::{
    arg_indent_ok, arg_list_indent_ok, args_indent_ok, else_ifs_indent_ok, expr_indent_ok,
    exprs_indent_ok, if_conditional_indent_ok, lemma_arg_list_indent_ok_at,
    lemma_else_ifs_indent_ok_at, lemma_exprs_indent_ok_at, term_indent_ok, trailing_else_indent_ok,
    arg_list_wf, arg_wf, args_wf, else_ifs_wf, expr_wf, exprs_wf, if_conditional_wf,
    lemma_arg_list_wf_at, lemma_else_ifs_wf_at, lemma_exprs_wf_at, term_wf, trailing_else_wf, Arg,
    Args, Delimiter, ElseIfConditional, Expression, ForLoop, FunctionCall, FunctionDefinition,
    IfConditional, IfExpression, Lambda, RepeatExpression, SubsetExpression, TermExpr,
    WhileExpression,
};
use crate::config::{FormattingConfig, FunctionLineBreaks};
use crate::doc::{
    cons, group_with_ref, nest, nest_hanging, nest_if_break, nil, nl, share, spec_group, text,
    text_sized, to_group, Doc, InlineCommentPosition, ShouldBreak,
};
use crate::doc_rules::{
    any_arg_contains_closure, any_contains_closure, any_else_if_contains_closure, arg_contains_closure,
    braces_doc, call_doc, double_brace_doc, embracing_doc, is_double_brace, for_doc, is_embracing_term, lambda_doc, parens_doc,
    repeat_doc, subset_doc, while_doc, arg_doc, arg_list_doc, args_doc, block_doc, commented_token_doc, delimiter_doc, else_ifs_doc,
    expr_doc, exprs_doc, function_def_doc, if_conditional_doc, if_doc, join_prefix,
    leading_comments_doc, lemma_arg_list_doc_prefix, lemma_args_doc_mono, lemma_else_ifs_doc_mono,
    lemma_else_ifs_doc_prefix, lemma_expr_doc_mono, lemma_exprs_doc_prefix,
    lemma_param_list_doc_prefix, opt_expr_doc, param_list_doc, reduce_with_breaks,
    spec_contains_closure, spec_is_embracing_operator_closure, spec_join_ungroupped,
    spec_should_break_args, term_doc, token_doc,
};
use crate::preservation::{doc_visible, expr_texts, law_expr_doc_keeps_tokens, visible};
use crate::tokens::{token_str, CommentedToken, Token};
use std::rc::Rc;
use vstd::prelude::*;

verus! {

impl<'a> Token<'a> {
    pub fn to_docs(&self, _config: &FormattingConfig, _doc_ref: &mut usize) -> (res: Rc<Doc<'a>>)
        ensures
            *res == token_doc(*self),
            *final(_doc_ref) == *old(_doc_ref),
    {
        proof {
            reveal(token_doc);
        }
        match self {
            Token::InlineComment(s) => text_sized(s, 0, InlineCommentPosition::No),
            _ => text(token_str(self)),
        }
    }
}

/// The leading comments, one per line after the first.
fn leading_comments_to_docs<'a>(comments: &Vec<&'a str>) -> (res: Rc<Doc<'a>>)
    requires
        comments@.len() > 0,
    ensures
        *res == leading_comments_doc(comments@, comments@.len()),
{
    let mut docs = text(comments[0]);
    let mut i: usize = 1;
    while i < comments.len()
        invariant
            1 <= i <= comments@.len(),
            *docs == leading_comments_doc(comments@, i as nat),
        decreases comments@.len() - i,
    {
        docs = cons(cons(docs, nl("")), text_sized(comments[i], 0, InlineCommentPosition::No));
        i = i + 1;
    }
    docs
}

impl<'a> CommentedToken<'a> {
    pub fn to_docs(&self, config: &FormattingConfig, doc_ref: &mut usize) -> (res: Rc<Doc<'a>>)
        requires
            self.wf(),
        ensures
            *res == commented_token_doc(*self),
            *final(doc_ref) == *old(doc_ref),
    {
        proof {
            reveal(commented_token_doc);
        }
        match (&self.leading_comments, self.inline_comment) {
            (None, None) => self.token.to_docs(config, doc_ref),
            (None, Some(inline_comment)) => cons(
                cons(self.token.to_docs(config, doc_ref), text(" ")),
                text_sized(inline_comment, 0, InlineCommentPosition::End),
            ),
            (Some(leading_comments), None) => {
                let mut fresh_ref: usize = 0;
                let leading = to_group(
                    nest_hanging(leading_comments_to_docs(leading_comments)),
                    ShouldBreak::Yes,
                    &mut fresh_ref,
                );
                let mut fresh_ref: usize = 0;
                let token = to_group(
                    self.token.to_docs(config, doc_ref),
                    ShouldBreak::No,
                    &mut fresh_ref,
                );
                let mut fresh_ref: usize = 0;
                to_group(cons(cons(leading, nl("")), token), ShouldBreak::Yes, &mut fresh_ref)
            },
            (Some(leading_comments), Some(inline_comment)) => {
                let mut fresh_ref: usize = 0;
                let leading = to_group(
                    nest_hanging(leading_comments_to_docs(leading_comments)),
                    ShouldBreak::Yes,
                    &mut fresh_ref,
                );
                let mut fresh_ref: usize = 0;
                let token = to_group(
                    cons(
                        cons(self.token.to_docs(config, doc_ref), text(" ")),
                        text_sized(inline_comment, 0, InlineCommentPosition::End),
                    ),
                    ShouldBreak::No,
                    &mut fresh_ref,
                );
                let mut fresh_ref: usize = 0;
                to_group(cons(cons(leading, nl("")), token), ShouldBreak::Yes, &mut fresh_ref)
            },
        }
    }
}

impl<'a> Delimiter<'a> {
    pub fn to_docs(&self, config: &FormattingConfig, doc_ref: &mut usize) -> (res: Rc<Doc<'a>>)
        requires
            crate::ast::delimiter_wf(*self),
        ensures
            *res == delimiter_doc(*self),
            *final(doc_ref) == *old(doc_ref),
    {
        proof {
            reveal(delimiter_doc);
        }
        match self {
            Delimiter::Paren(single) => single.to_docs(config, doc_ref),
            Delimiter::SingleBracket(single) => single.to_docs(config, doc_ref),
            Delimiter::DoubleBracket((b1, b2)) => {
                let first = b1.to_docs(config, doc_ref);
                cons(first, b2.to_docs(config, doc_ref))
            },
        }
    }
}

/// Joins the documents that are not `Nil` with the separator and a break, and
/// groups the result with the next reference number.
pub fn join_docs<'a>(
    docs: Vec<Rc<Doc<'a>>>,
    separator: Rc<Doc<'a>>,
    should_break: ShouldBreak,
    config: &FormattingConfig,
    doc_ref: &mut usize,
) -> (res: Rc<Doc<'a>>)
    requires
        *old(doc_ref) < usize::MAX,
    ensures
        *final(doc_ref) == *old(doc_ref) + 1,
        *res == spec_group(
            spec_join_ungroupped(docs@, *separator),
            should_break,
            *final(doc_ref),
        ),
{
    to_group(join_docs_ungroupped(docs, separator, config), should_break, doc_ref)
}

/// Joins the documents that are not `Nil`: the one at position 0 stands
/// alone, every other one follows the separator and a break. The result is
/// always a `Cons`.
pub fn join_docs_ungroupped<'a>(
    docs: Vec<Rc<Doc<'a>>>,
    separator: Rc<Doc<'a>>,
    _config: &FormattingConfig,
) -> (res: Rc<Doc<'a>>)
    ensures
        *res == spec_join_ungroupped(docs@, *separator),
{
    let mut res = nil();
    let mut i: usize = 0;
    while i < docs.len()
        invariant
            i <= docs@.len(),
            *res == join_prefix(docs@, *separator, i as nat),
        decreases docs@.len() - i,
    {
        let next_doc = share(&docs[i]);
        if !matches!(*next_doc, Doc::Nil) {
            if i == 0 {
                res = cons(res, next_doc);
            } else {
                res = cons(cons(cons(res, share(&separator)), nl(" ")), next_doc);
            }
        }
        i = i + 1;
    }
    if matches!(*res, Doc::Nil) {
        res = cons(res, nil());
    }
    res
}

// ---------------------------------------------------------------------------
// Closures in arguments
// ---------------------------------------------------------------------------
proof fn lemma_any_contains_closure_mono(es: Seq<Expression>, m: nat, n: nat)
    requires
        m <= n <= es.len(),
        any_contains_closure(es, m),
    ensures
        any_contains_closure(es, n),
    decreases n,
{
    if m < n {
        lemma_any_contains_closure_mono(es, m, (n - 1) as nat);
    }
}

proof fn lemma_any_arg_contains_closure_mono(args: Seq<Arg>, m: nat, n: nat)
    requires
        m <= n <= args.len(),
        any_arg_contains_closure(args, m),
    ensures
        any_arg_contains_closure(args, n),
    decreases n,
{
    if m < n {
        lemma_any_arg_contains_closure_mono(args, m, (n - 1) as nat);
    }
}

proof fn lemma_any_else_if_contains_closure_mono(es: Seq<ElseIfConditional>, m: nat, n: nat)
    requires
        m <= n <= es.len(),
        any_else_if_contains_closure(es, m),
    ensures
        any_else_if_contains_closure(es, n),
    decreases n,
{
    if m < n {
        lemma_any_else_if_contains_closure_mono(es, m, (n - 1) as nat);
    }
}

/// Whether `term` is the embracing operator `{{ ... }}`.
pub fn is_embracing_operator_closure(term: &TermExpr) -> (res: bool)
    ensures
        res == spec_is_embracing_operator_closure(*term),
{
    match term.pre_delimiters {
        None => false,
        Some(pre) => {
            if term.term.len() == 0 {
                return false;
            }
            if !matches!(pre.token, Token::LBrace) {
                return false;
            }
            if let Expression::Term(inner) = &term.term[0] {
                inner.pre_delimiters.is_some() && matches!(
                    inner.pre_delimiters.unwrap().token,
                    Token::LBrace
                )
            } else {
                false
            }
        },
    }
}

/// Whether an expression holds a block in braces (other than the embracing
/// operator) or a `repeat`, outside of lambdas and formulas.
pub fn contains_closure(expr: &Expression) -> (res: bool)
    ensures
        res == spec_contains_closure(*expr),
    decreases *expr, 0nat,
{
    match expr {
        Expression::Symbol(_) | Expression::Literal(_) | Expression::Formula(_, _)
        | Expression::Newline(_) | Expression::Whitespace(_) | Expression::EOF(_)
        | Expression::Break(_) | Expression::Continue(_) | Expression::Comment(_) => false,
        Expression::Term(term) => {
            if is_embracing_operator_closure(term) {
                false
            } else if let Some(pre_delim) = term.pre_delimiters {
                matches!(pre_delim.token, Token::LBrace)
            } else {
                any_expression_contains_closure(&term.term)
            }
        },
        Expression::Unary(_, expr) => contains_closure(expr),
        Expression::Bop(_, expr1, expr2) => contains_closure(expr1) || contains_closure(expr2),
        Expression::FunctionDef(func_def) => {
            any_argument_contains_closure(&func_def.arguments.args) || contains_closure(
                &func_def.body,
            )
        },
        Expression::LambdaFunction(_) => false,
        Expression::IfExpression(if_expr) => {
            contains_closure(&if_expr.if_conditional.condition) || contains_closure(
                &if_expr.if_conditional.body,
            ) || any_else_if_contains_closure_exec(&if_expr.else_ifs) || match &if_expr.trailing_else {
                Some(trailing_else) => contains_closure(&trailing_else.body),
                None => false,
            }
        },
        Expression::WhileExpression(while_loop) => {
            contains_closure(&while_loop.condition) || contains_closure(&while_loop.body)
        },
        Expression::RepeatExpression(_) => true,
        Expression::FunctionCall(call) => any_argument_contains_closure(&call.args.args),
        Expression::SubsetExpression(subset) => any_argument_contains_closure(&subset.args.args),
        Expression::ForLoopExpression(for_loop) => {
            contains_closure(&for_loop.collection) || contains_closure(&for_loop.body)
        },
    }
}

fn any_expression_contains_closure(es: &Vec<Expression>) -> (res: bool)
    ensures
        res == any_contains_closure(es@, es@.len()),
    decreases es@, es@.len(),
{
    let mut i: usize = 0;
    while i < es.len()
        invariant
            i <= es@.len(),
            !any_contains_closure(es@, i as nat),
        decreases es@.len() - i,
    {
        if contains_closure(&es[i]) {
            proof {
                lemma_any_contains_closure_mono(es@, (i + 1) as nat, es@.len());
            }
            return true;
        }
        i = i + 1;
    }
    false
}

fn argument_contains_closure(arg: &Arg) -> (res: bool)
    ensures
        res == arg_contains_closure(*arg),
    decreases *arg, 0nat,
{
    match &arg.0 {
        Some(e) => contains_closure(e),
        None => false,
    }
}

fn any_argument_contains_closure(args: &Vec<Arg>) -> (res: bool)
    ensures
        res == any_arg_contains_closure(args@, args@.len()),
    decreases args@, args@.len(),
{
    let mut i: usize = 0;
    while i < args.len()
        invariant
            i <= args@.len(),
            !any_arg_contains_closure(args@, i as nat),
        decreases args@.len() - i,
    {
        if argument_contains_closure(&args[i]) {
            proof {
                lemma_any_arg_contains_closure_mono(args@, (i + 1) as nat, args@.len());
            }
            return true;
        }
        i = i + 1;
    }
    false
}

fn any_else_if_contains_closure_exec(es: &Vec<ElseIfConditional>) -> (res: bool)
    ensures
        res == any_else_if_contains_closure(es@, es@.len()),
    decreases es@, es@.len(),
{
    let mut i: usize = 0;
    while i < es.len()
        invariant
            i <= es@.len(),
            !any_else_if_contains_closure(es@, i as nat),
        decreases es@.len() - i,
    {
        let else_if = &es[i];
        if contains_closure(&else_if.if_conditional.body) || contains_closure(
            &else_if.if_conditional.condition,
        ) {
            proof {
                lemma_any_else_if_contains_closure_mono(es@, (i + 1) as nat, es@.len());
            }
            return true;
        }
        i = i + 1;
    }
    false
}

/// Arguments break when there are at least two of them and one that is not
/// the last contains a closure; otherwise the layout decides.
pub fn should_break_args(args: &Args) -> (res: ShouldBreak)
    ensures
        res == spec_should_break_args(*args),
{
    let n = args.args.len();
    if n >= 2 {
        let mut i: usize = 0;
        while i < n - 1
            invariant
                n == args.args@.len(),
                n >= 2,
                i <= n - 1,
                forall|j: int| 0 <= j < i ==> !#[trigger] arg_contains_closure(args.args@[j]),
            decreases n - 1 - i,
        {
            if argument_contains_closure(&args.args[i]) {
                return ShouldBreak::Yes;
            }
            i = i + 1;
        }
        ShouldBreak::No
    } else {
        ShouldBreak::No
    }
}


// ---------------------------------------------------------------------------
// Expressions
// ---------------------------------------------------------------------------
/// The configuration and the counter admit the conversion of `e` from `r`.
pub open spec fn expr_fits<'a>(e: Expression<'a>, config: FormattingConfig, r: usize) -> bool {
    &&& expr_wf(e)
    &&& expr_indent_ok(e, config)
    &&& expr_doc(e, config, r as nat).1 <= usize::MAX
}

impl<'a> Expression<'a> {
    pub fn to_docs(&self, config: &FormattingConfig, doc_ref: &mut usize) -> (res: Rc<Doc<'a>>)
        requires
            expr_fits(*self, *config, *old(doc_ref)),
        ensures
            *res == expr_doc(*self, *config, *old(doc_ref) as nat).0,
            *final(doc_ref) == expr_doc(*self, *config, *old(doc_ref) as nat).1,
            doc_visible(*res) == visible(expr_texts(*self)),
            *final(doc_ref) >= *old(doc_ref),
        decreases *self, 1nat,
    {
        let ghost r0 = *doc_ref as nat;
        proof {
            law_expr_doc_keeps_tokens(*self, *config, r0);
            lemma_expr_doc_mono(*self, *config, r0);
        }
        match self {
            Expression::Symbol(token) | Expression::Literal(token) | Expression::Comment(token)
            | Expression::Continue(token) | Expression::Break(token) => token.to_docs(config, doc_ref),
            Expression::Term(term_expr) => term_to_docs(term_expr, config, doc_ref),
            Expression::Unary(op, expr) => {
                let op_doc = op.to_docs(config, doc_ref);
                cons(op_doc, expr.to_docs(config, doc_ref))
            },
            Expression::Bop(op, lhs, rhs) => {
                proof {
                    lemma_expr_doc_mono(**rhs, *config, expr_doc(**lhs, *config, r0).1);
                }
                let lhs_doc = lhs.to_docs(config, doc_ref);
                if matches!(op.token, Token::OldAssign | Token::LAssign)
                    && !config.allow_nl_after_assignment {
                    let left = cons(cons(lhs_doc, text(" ")), op.to_docs(config, doc_ref));
                    let right = cons(text(" "), rhs.to_docs(config, doc_ref));
                    return to_group(cons(left, right), ShouldBreak::No, doc_ref);
                }
                match op.token {
                    Token::LAssign | Token::RAssign | Token::OldAssign | Token::Equal
                    | Token::NotEqual | Token::LowerThan | Token::GreaterThan | Token::LowerEqual
                    | Token::GreaterEqual | Token::Divide | Token::Multiply | Token::Minus
                    | Token::Plus | Token::And | Token::VectorizedAnd | Token::Or
                    | Token::VectorizedOr | Token::Pipe | Token::Modulo | Token::Tilde
                    | Token::Special(_) => {
                        let left = cons(cons(lhs_doc, text(" ")), op.to_docs(config, doc_ref));
                        cons(
                            left,
                            nest(cons(nl(" "), rhs.to_docs(config, doc_ref)), config.indent),
                        )
                    },
                    _ => {
                        let left = cons(lhs_doc, op.to_docs(config, doc_ref));
                        to_group(cons(left, rhs.to_docs(config, doc_ref)), ShouldBreak::No, doc_ref)
                    },
                }
            },
            Expression::Formula(tilde, term) => {
                let tilde_doc = tilde.to_docs(config, doc_ref);
                let space = if matches!(**term, Expression::Symbol(_)) {
                    text("")
                } else {
                    text(" ")
                };
                cons(cons(tilde_doc, space), term.to_docs(config, doc_ref))
            },
            Expression::Newline(_) => nl("\n"),
            Expression::EOF(eof) => eof.to_docs(config, doc_ref),
            Expression::Whitespace(_) => text(""),
            Expression::FunctionDef(function_def) => function_def_to_docs(function_def, config, doc_ref),
            Expression::IfExpression(if_expression) => if_to_docs(if_expression, config, doc_ref),
            Expression::WhileExpression(while_expression) => while_to_docs(
                while_expression,
                config,
                doc_ref,
            ),
            Expression::RepeatExpression(repeat_expression) => repeat_to_docs(
                repeat_expression,
                config,
                doc_ref,
            ),
            Expression::FunctionCall(function_call) => call_to_docs(function_call, config, doc_ref),
            Expression::SubsetExpression(subset_expression) => subset_to_docs(
                subset_expression,
                config,
                doc_ref,
            ),
            Expression::ForLoopExpression(for_loop) => for_loop_to_docs(for_loop, config, doc_ref),
            Expression::LambdaFunction(lambda) => lambda_to_docs(lambda, config, doc_ref),
        }
    }
}

fn while_to_docs<'a>(w: &WhileExpression<'a>, config: &FormattingConfig, doc_ref: &mut usize) -> (res:
    Rc<Doc<'a>>)
    requires
        w.while_keyword.wf() && expr_wf(*w.condition) && expr_wf(*w.body),
        expr_indent_ok(*w.condition, *config) && expr_indent_ok(*w.body, *config),
        while_doc(*w, *config, *old(doc_ref) as nat).1 <= usize::MAX,
    ensures
        *res == while_doc(*w, *config, *old(doc_ref) as nat).0,
        *final(doc_ref) == while_doc(*w, *config, *old(doc_ref) as nat).1,
    decreases *w, 0nat,
{
    let ghost r0 = *doc_ref as nat;
    proof {
        lemma_expr_doc_mono(*w.body, *config, expr_doc(*w.condition, *config, r0).1);
    }
    let keyword = w.while_keyword.to_docs(config, doc_ref);
    let condition = w.condition.to_docs(config, doc_ref);
    let head = cons(cons(cons(keyword, text(" ")), condition), text(" "));
    let body = w.body.to_docs(config, doc_ref);
    to_group(cons(head, body), ShouldBreak::No, doc_ref)
}

fn repeat_to_docs<'a>(rep: &RepeatExpression<'a>, config: &FormattingConfig, doc_ref: &mut usize) -> (res:
    Rc<Doc<'a>>)
    requires
        rep.repeat_keyword.wf() && expr_wf(*rep.body),
        expr_indent_ok(*rep.body, *config),
        repeat_doc(*rep, *config, *old(doc_ref) as nat).1 <= usize::MAX,
    ensures
        *res == repeat_doc(*rep, *config, *old(doc_ref) as nat).0,
        *final(doc_ref) == repeat_doc(*rep, *config, *old(doc_ref) as nat).1,
    decreases *rep, 0nat,
{
    let keyword = rep.repeat_keyword.to_docs(config, doc_ref);
    let body = rep.body.to_docs(config, doc_ref);
    to_group(cons(keyword, body), ShouldBreak::No, doc_ref)
}

fn call_to_docs<'a>(c: &FunctionCall<'a>, config: &FormattingConfig, doc_ref: &mut usize) -> (res: Rc<
    Doc<'a>,
>)
    requires
        expr_wf(*c.function_ref) && args_wf(c.args),
        expr_indent_ok(*c.function_ref, *config) && args_indent_ok(c.args, *config),
        call_doc(*c, *config, *old(doc_ref) as nat).1 <= usize::MAX,
    ensures
        *res == call_doc(*c, *config, *old(doc_ref) as nat).0,
        *final(doc_ref) == call_doc(*c, *config, *old(doc_ref) as nat).1,
    decreases *c, 0nat,
{
    let ghost r0 = *doc_ref as nat;
    proof {
        lemma_expr_doc_mono(*c.function_ref, *config, r0 + 1);
        lemma_args_doc_mono(
            c.args,
            *config,
            expr_doc(*c.function_ref, *config, r0 + 1).1,
            Some((r0 + 1) as usize),
        );
    }
    let group_ref = *doc_ref + 1;
    *doc_ref = *doc_ref + 1;
    let function_doc = c.function_ref.to_docs(config, doc_ref);
    let args_doc = args_to_docs_with_conditional_nest(&c.args, config, doc_ref, group_ref);
    group_with_ref(cons(function_doc, args_doc), should_break_args(&c.args), group_ref)
}

fn subset_to_docs<'a>(s: &SubsetExpression<'a>, config: &FormattingConfig, doc_ref: &mut usize) -> (res:
    Rc<Doc<'a>>)
    requires
        expr_wf(*s.object_ref) && args_wf(s.args),
        expr_indent_ok(*s.object_ref, *config) && args_indent_ok(s.args, *config),
        subset_doc(*s, *config, *old(doc_ref) as nat).1 <= usize::MAX,
    ensures
        *res == subset_doc(*s, *config, *old(doc_ref) as nat).0,
        *final(doc_ref) == subset_doc(*s, *config, *old(doc_ref) as nat).1,
    decreases *s, 0nat,
{
    let ghost r0 = *doc_ref as nat;
    proof {
        lemma_args_doc_mono(s.args, *config, expr_doc(*s.object_ref, *config, r0).1, None);
    }
    let object_doc = s.object_ref.to_docs(config, doc_ref);
    let args_doc = s.args.to_docs(config, doc_ref);
    to_group(cons(object_doc, args_doc), should_break_args(&s.args), doc_ref)
}

fn lambda_to_docs<'a>(l: &Lambda<'a>, config: &FormattingConfig, doc_ref: &mut usize) -> (res: Rc<
    Doc<'a>,
>)
    requires
        l.keyword.wf() && args_wf(l.args) && expr_wf(*l.body),
        args_indent_ok(l.args, *config) && expr_indent_ok(*l.body, *config),
        lambda_doc(*l, *config, *old(doc_ref) as nat).1 <= usize::MAX,
    ensures
        *res == lambda_doc(*l, *config, *old(doc_ref) as nat).0,
        *final(doc_ref) == lambda_doc(*l, *config, *old(doc_ref) as nat).1,
    decreases *l, 0nat,
{
    let ghost r0 = *doc_ref as nat;
    proof {
        lemma_expr_doc_mono(*l.body, *config, args_doc(l.args, *config, r0, None).1);
    }
    let keyword = l.keyword.to_docs(config, doc_ref);
    let args = l.args.to_docs(config, doc_ref);
    let head = cons(cons(keyword, args), text(" "));
    let body = l.body.to_docs(config, doc_ref);
    to_group(cons(head, body), ShouldBreak::No, doc_ref)
}

/// An opening delimiter, the nested inside after a break, a break and the closing delimiter.
fn block_to_docs<'a>(
    pre: Rc<Doc<'a>>,
    inside: Rc<Doc<'a>>,
    post: Rc<Doc<'a>>,
    brk: &'a str,
    config: &FormattingConfig,
) -> (res: Rc<Doc<'a>>)
    ensures
        *res == block_doc(*pre, *inside, *post, brk, *config),
{
    cons(cons(cons(pre, nest(cons(nl(brk), inside), config.indent)), nl(brk)), post)
}

/// The documents of a list of expressions, each grouped when `grouped`.
fn exprs_to_docs<'a>(
    es: &Vec<Expression<'a>>,
    grouped: bool,
    config: &FormattingConfig,
    doc_ref: &mut usize,
) -> (res: Vec<Rc<Doc<'a>>>)
    requires
        exprs_wf(es@, es@.len()),
        exprs_indent_ok(es@, es@.len(), *config),
        exprs_doc(es@, es@.len(), grouped, *config, *old(doc_ref) as nat).1 <= usize::MAX,
    ensures
        res@ == exprs_doc(es@, es@.len(), grouped, *config, *old(doc_ref) as nat).0,
        *final(doc_ref) == exprs_doc(es@, es@.len(), grouped, *config, *old(doc_ref) as nat).1,
    decreases es@, es@.len(),
{
    let ghost r0 = *doc_ref as nat;
    let mut docs: Vec<Rc<Doc<'a>>> = Vec::new();
    let mut i: usize = 0;
    while i < es.len()
        invariant
            i <= es@.len(),
            exprs_wf(es@, es@.len()),
            exprs_indent_ok(es@, es@.len(), *config),
            exprs_doc(es@, es@.len(), grouped, *config, r0).1 <= usize::MAX,
            docs@ == exprs_doc(es@, i as nat, grouped, *config, r0).0,
            *doc_ref == exprs_doc(es@, i as nat, grouped, *config, r0).1,
        decreases es@.len() - i,
    {
        proof {
            lemma_exprs_wf_at(es@, es@.len(), i as int);
            lemma_exprs_indent_ok_at(es@, es@.len(), *config, i as int);
            lemma_exprs_doc_prefix(es@, (i + 1) as nat, es@.len(), grouped, *config, r0);
        }
        let doc = es[i].to_docs(config, doc_ref);
        let doc = if grouped {
            to_group(doc, ShouldBreak::No, doc_ref)
        } else {
            doc
        };
        docs.push(doc);
        i = i + 1;
    }
    docs
}

fn term_to_docs<'a>(t: &TermExpr<'a>, config: &FormattingConfig, doc_ref: &mut usize) -> (res: Rc<
    Doc<'a>,
>)
    requires
        term_wf(*t),
        term_indent_ok(*t, *config),
        term_doc(*t, *config, *old(doc_ref) as nat).1 <= usize::MAX,
    ensures
        *res == term_doc(*t, *config, *old(doc_ref) as nat).0,
        *final(doc_ref) == term_doc(*t, *config, *old(doc_ref) as nat).1,
    decreases *t, 2nat,
{
    match (t.pre_delimiters, t.post_delimiters) {
        (Some(pre_delim), Some(_)) => {
            if config.embracing_op_no_nl && matches!(pre_delim.token, Token::LBrace) && t.term.len()
                == 1 && matches!(t.term[0], Expression::Term(_)) {
                embracing_to_docs(t, config, doc_ref)
            } else if matches!(pre_delim.token, Token::LBrace) {
                braces_to_docs(t, config, doc_ref)
            } else {
                parens_to_docs(t, config, doc_ref)
            }
        },
        (None, None) => {
            let docs = exprs_to_docs(&t.term, true, config, doc_ref);
            join_docs(docs, nil(), ShouldBreak::Yes, config, doc_ref)
        },
        _ => {
            proof {
                assert(false);
            }
            nil()
        },
    }
}

fn embracing_to_docs<'a>(t: &TermExpr<'a>, config: &FormattingConfig, doc_ref: &mut usize) -> (res:
    Rc<Doc<'a>>)
    requires
        term_wf(*t),
        is_embracing_term(*t, *config),
        t.post_delimiters is Some,
        term_indent_ok(*t, *config),
        embracing_doc(*t, *config, *old(doc_ref) as nat).1 <= usize::MAX,
    ensures
        *res == embracing_doc(*t, *config, *old(doc_ref) as nat).0,
        *final(doc_ref) == embracing_doc(*t, *config, *old(doc_ref) as nat).1,
    decreases *t, 1nat,
{
    let is_double = match &t.term[0] {
        Expression::Term(inner_term_expr) => inner_term_expr.pre_delimiters.is_some() && matches!(
            inner_term_expr.pre_delimiters.unwrap().token,
            Token::LBrace
        ),
        _ => false,
    };
    if is_double {
        double_brace_to_docs(t, config, doc_ref)
    } else {
        let pre_delim = t.pre_delimiters.unwrap();
        let post_delim = t.post_delimiters.unwrap();
        let docs = exprs_to_docs(&t.term, false, config, doc_ref);
        let inner = join_docs(docs, nil(), ShouldBreak::No, config, doc_ref);
        let pre = pre_delim.to_docs(config, doc_ref);
        let post = post_delim.to_docs(config, doc_ref);
        to_group(block_to_docs(pre, inner, post, " ", config), ShouldBreak::Yes, doc_ref)
    }
}

fn double_brace_to_docs<'a>(t: &TermExpr<'a>, config: &FormattingConfig, doc_ref: &mut usize) -> (res:
    Rc<Doc<'a>>)
    requires
        term_wf(*t),
        is_embracing_term(*t, *config),
        is_double_brace(*t),
        t.post_delimiters is Some,
        term_indent_ok(*t, *config),
        double_brace_doc(*t, *config, *old(doc_ref) as nat).1 <= usize::MAX,
    ensures
        *res == double_brace_doc(*t, *config, *old(doc_ref) as nat).0,
        *final(doc_ref) == double_brace_doc(*t, *config, *old(doc_ref) as nat).1,
    decreases *t, 0nat,
{
    proof {
        lemma_exprs_wf_at(t.term@, t.term@.len(), 0);
        lemma_exprs_indent_ok_at(t.term@, t.term@.len(), *config, 0);
    }
    let pre_delim = t.pre_delimiters.unwrap();
    let post_delim = t.post_delimiters.unwrap();
    match &t.term[0] {
        Expression::Term(inner_term_expr) => {
            proof {
                assert(expr_wf(t.term@[0]));
                assert(term_wf(**inner_term_expr));
                assert(term_indent_ok(**inner_term_expr, *config));
            }
            let inner_docs = exprs_to_docs(&inner_term_expr.term, false, config, doc_ref);
            let inner_docs = join_docs(inner_docs, nil(), ShouldBreak::No, config, doc_ref);
            let pre = pre_delim.to_docs(config, doc_ref);
            let inner_pre = inner_term_expr.pre_delimiters.unwrap().to_docs(config, doc_ref);
            let inner_post = inner_term_expr.post_delimiters.unwrap().to_docs(config, doc_ref);
            let post = post_delim.to_docs(config, doc_ref);
            let d = cons(
                cons(
                    cons(cons(cons(cons(pre, inner_pre), text(" ")), inner_docs), text(" ")),
                    inner_post,
                ),
                post,
            );
            to_group(d, ShouldBreak::No, doc_ref)
        },
        _ => {
            proof {
                assert(false);
            }
            nil()
        },
    }
}

fn braces_to_docs<'a>(t: &TermExpr<'a>, config: &FormattingConfig, doc_ref: &mut usize) -> (res: Rc<
    Doc<'a>,
>)
    requires
        term_wf(*t),
        t.pre_delimiters is Some,
        t.post_delimiters is Some,
        term_indent_ok(*t, *config),
        braces_doc(*t, *config, *old(doc_ref) as nat).1 <= usize::MAX,
    ensures
        *res == braces_doc(*t, *config, *old(doc_ref) as nat).0,
        *final(doc_ref) == braces_doc(*t, *config, *old(doc_ref) as nat).1,
    decreases *t, 0nat,
{
    let pre_delim = t.pre_delimiters.unwrap();
    let post_delim = t.post_delimiters.unwrap();
    if t.term.len() == 0 {
        let pre = pre_delim.to_docs(config, doc_ref);
        let post = post_delim.to_docs(config, doc_ref);
        let mut fresh_ref: usize = 0;
        to_group(
            cons(nest(cons(pre, nl("")), config.indent), post),
            ShouldBreak::No,
            &mut fresh_ref,
        )
    } else {
        let docs = exprs_to_docs(&t.term, true, config, doc_ref);
        let inner = join_docs(docs, nil(), ShouldBreak::Yes, config, doc_ref);
        let pre = pre_delim.to_docs(config, doc_ref);
        let post = post_delim.to_docs(config, doc_ref);
        to_group(block_to_docs(pre, inner, post, " ", config), ShouldBreak::Yes, doc_ref)
    }
}

fn parens_to_docs<'a>(t: &TermExpr<'a>, config: &FormattingConfig, doc_ref: &mut usize) -> (res: Rc<
    Doc<'a>,
>)
    requires
        term_wf(*t),
        t.pre_delimiters is Some,
        t.post_delimiters is Some,
        term_indent_ok(*t, *config),
        parens_doc(*t, *config, *old(doc_ref) as nat).1 <= usize::MAX,
    ensures
        *res == parens_doc(*t, *config, *old(doc_ref) as nat).0,
        *final(doc_ref) == parens_doc(*t, *config, *old(doc_ref) as nat).1,
    decreases *t, 0nat,
{
    let pre_delim = t.pre_delimiters.unwrap();
    let post_delim = t.post_delimiters.unwrap();
    if t.term.len() == 0 {
        let pre = pre_delim.to_docs(config, doc_ref);
        cons(pre, post_delim.to_docs(config, doc_ref))
    } else {
        let docs = exprs_to_docs(&t.term, false, config, doc_ref);
        let inner = join_docs(docs, nil(), ShouldBreak::No, config, doc_ref);
        let pre = pre_delim.to_docs(config, doc_ref);
        let post = post_delim.to_docs(config, doc_ref);
        to_group(block_to_docs(pre, inner, post, "", config), ShouldBreak::No, doc_ref)
    }
}

/// The document of an optional expression: the empty text when absent.
fn optional_expression_to_docs<'a>(
    e: &Option<Expression<'a>>,
    config: &FormattingConfig,
    doc_ref: &mut usize,
) -> (res: Rc<Doc<'a>>)
    requires
        *e matches Some(x) ==> expr_wf(x),
        *e matches Some(x) ==> expr_indent_ok(x, *config),
        opt_expr_doc(*e, *config, *old(doc_ref) as nat).1 <= usize::MAX,
    ensures
        *res == opt_expr_doc(*e, *config, *old(doc_ref) as nat).0,
        *final(doc_ref) == opt_expr_doc(*e, *config, *old(doc_ref) as nat).1,
    decreases *e, 0nat,
{
    match e {
        Some(inner) => inner.to_docs(config, doc_ref),
        None => text(""),
    }
}

impl<'a> Arg<'a> {
    pub fn to_docs(&self, config: &FormattingConfig, doc_ref: &mut usize) -> (res: Rc<Doc<'a>>)
        requires
            arg_wf(*self),
            arg_indent_ok(*self, *config),
            arg_doc(*self, *config, *old(doc_ref) as nat).1 <= usize::MAX,
        ensures
            *res == arg_doc(*self, *config, *old(doc_ref) as nat).0,
            *final(doc_ref) == arg_doc(*self, *config, *old(doc_ref) as nat).1,
        decreases *self, 0nat,
    {
        if let Some(comma) = &self.1 {
            let value = optional_expression_to_docs(&self.0, config, doc_ref);
            cons(value, comma.to_docs(config, doc_ref))
        } else {
            optional_expression_to_docs(&self.0, config, doc_ref)
        }
    }
}

/// The grouped documents of a list of arguments.
fn arg_list_to_docs<'a>(args: &Vec<Arg<'a>>, config: &FormattingConfig, doc_ref: &mut usize) -> (res:
    Vec<Rc<Doc<'a>>>)
    requires
        arg_list_wf(args@, args@.len()),
        arg_list_indent_ok(args@, args@.len(), *config),
        arg_list_doc(args@, args@.len(), *config, *old(doc_ref) as nat).1 <= usize::MAX,
    ensures
        res@ == arg_list_doc(args@, args@.len(), *config, *old(doc_ref) as nat).0,
        *final(doc_ref) == arg_list_doc(args@, args@.len(), *config, *old(doc_ref) as nat).1,
    decreases args@, args@.len(),
{
    let ghost r0 = *doc_ref as nat;
    let mut docs: Vec<Rc<Doc<'a>>> = Vec::new();
    let mut i: usize = 0;
    while i < args.len()
        invariant
            i <= args@.len(),
            arg_list_wf(args@, args@.len()),
            arg_list_indent_ok(args@, args@.len(), *config),
            arg_list_doc(args@, args@.len(), *config, r0).1 <= usize::MAX,
            docs@ == arg_list_doc(args@, i as nat, *config, r0).0,
            *doc_ref == arg_list_doc(args@, i as nat, *config, r0).1,
        decreases args@.len() - i,
    {
        proof {
            lemma_arg_list_wf_at(args@, args@.len(), i as int);
            lemma_arg_list_indent_ok_at(args@, args@.len(), *config, i as int);
            lemma_arg_list_doc_prefix(args@, (i + 1) as nat, args@.len(), *config, r0);
        }
        let doc = args[i].to_docs(config, doc_ref);
        docs.push(to_group(doc, ShouldBreak::No, doc_ref));
        i = i + 1;
    }
    docs
}

/// The documents one after the other with a break between each two.
fn reduce_with_nl<'a>(docs: &Vec<Rc<Doc<'a>>>) -> (res: Rc<Doc<'a>>)
    requires
        docs@.len() > 0,
    ensures
        *res == reduce_with_breaks(docs@, docs@.len()),
{
    let mut res = share(&docs[0]);
    let mut i: usize = 1;
    while i < docs.len()
        invariant
            1 <= i <= docs@.len(),
            *res == reduce_with_breaks(docs@, i as nat),
        decreases docs@.len() - i,
    {
        res = cons(cons(res, nl(" ")), share(&docs[i]));
        i = i + 1;
    }
    res
}

impl<'a> Args<'a> {
    pub fn to_docs(&self, config: &FormattingConfig, doc_ref: &mut usize) -> (res: Rc<Doc<'a>>)
        requires
            args_wf(*self),
            args_indent_ok(*self, *config),
            args_doc(*self, *config, *old(doc_ref) as nat, None).1 <= usize::MAX,
        ensures
            *res == args_doc(*self, *config, *old(doc_ref) as nat, None).0,
            *final(doc_ref) == args_doc(*self, *config, *old(doc_ref) as nat, None).1,
            *final(doc_ref) >= *old(doc_ref),
        decreases *self, 0nat,
    {
        proof {
            lemma_args_doc_mono(*self, *config, *old(doc_ref) as nat, None);
        }
        let inside_delims = arg_list_to_docs(&self.args, config, doc_ref);
        if inside_delims.len() > 0 {
            let nested_inside_delims = nest(cons(nl(""), reduce_with_nl(&inside_delims)), config.indent);
            let left = self.left_delimeter.to_docs(config, doc_ref);
            let right = self.right_delimeter.to_docs(config, doc_ref);
            cons(cons(cons(left, nested_inside_delims), nl("")), right)
        } else {
            let left = self.left_delimeter.to_docs(config, doc_ref);
            cons(left, self.right_delimeter.to_docs(config, doc_ref))
        }
    }
}

/// The arguments between their delimiters; the inside nests only when the
/// document `observed_doc` breaks.
pub fn args_to_docs_with_conditional_nest<'a>(
    args: &Args<'a>,
    config: &FormattingConfig,
    doc_ref: &mut usize,
    observed_doc: usize,
) -> (res: Rc<Doc<'a>>)
    requires
        args_wf(*args),
        args_indent_ok(*args, *config),
        args_doc(*args, *config, *old(doc_ref) as nat, Some(observed_doc)).1 <= usize::MAX,
    ensures
        *res == args_doc(*args, *config, *old(doc_ref) as nat, Some(observed_doc)).0,
        *final(doc_ref) == args_doc(*args, *config, *old(doc_ref) as nat, Some(observed_doc)).1,
        *final(doc_ref) >= *old(doc_ref),
    decreases *args, 0nat,
{
    proof {
        lemma_args_doc_mono(*args, *config, *old(doc_ref) as nat, Some(observed_doc));
    }
    let inside_delims = arg_list_to_docs(&args.args, config, doc_ref);
    if inside_delims.len() > 0 {
        let nested_inside_delims = nest_if_break(
            cons(nl(""), reduce_with_nl(&inside_delims)),
            config.indent,
            observed_doc,
        );
        let left = args.left_delimeter.to_docs(config, doc_ref);
        let right = args.right_delimeter.to_docs(config, doc_ref);
        cons(cons(cons(left, nested_inside_delims), nl("")), right)
    } else {
        let left = args.left_delimeter.to_docs(config, doc_ref);
        cons(left, args.right_delimeter.to_docs(config, doc_ref))
    }
}

/// The grouped documents of the parameters of a function definition.
fn param_list_to_docs<'a>(args: &Vec<Arg<'a>>, config: &FormattingConfig, doc_ref: &mut usize) -> (res:
    Vec<Rc<Doc<'a>>>)
    requires
        arg_list_wf(args@, args@.len()),
        arg_list_indent_ok(args@, args@.len(), *config),
        param_list_doc(args@, args@.len(), *config, *old(doc_ref) as nat).1 <= usize::MAX,
    ensures
        res@ == param_list_doc(args@, args@.len(), *config, *old(doc_ref) as nat).0,
        *final(doc_ref) == param_list_doc(args@, args@.len(), *config, *old(doc_ref) as nat).1,
    decreases args@, args@.len(),
{
    let ghost r0 = *doc_ref as nat;
    let mut docs: Vec<Rc<Doc<'a>>> = Vec::new();
    let mut i: usize = 0;
    while i < args.len()
        invariant
            i <= args@.len(),
            arg_list_wf(args@, args@.len()),
            arg_list_indent_ok(args@, args@.len(), *config),
            param_list_doc(args@, args@.len(), *config, r0).1 <= usize::MAX,
            docs@ == param_list_doc(args@, i as nat, *config, r0).0,
            *doc_ref == param_list_doc(args@, i as nat, *config, r0).1,
        decreases args@.len() - i,
    {
        proof {
            lemma_arg_list_wf_at(args@, args@.len(), i as int);
            lemma_arg_list_indent_ok_at(args@, args@.len(), *config, i as int);
            lemma_param_list_doc_prefix(args@, (i + 1) as nat, args@.len(), *config, r0);
        }
        let arg = &args[i];
        let value = optional_expression_to_docs(&arg.0, config, doc_ref);
        let comma = match &arg.1 {
            Some(sep) => sep.to_docs(config, doc_ref),
            None => nil(),
        };
        docs.push(to_group(cons(value, comma), ShouldBreak::No, doc_ref));
        i = i + 1;
    }
    docs
}

fn function_def_to_docs<'a>(
    f: &FunctionDefinition<'a>,
    config: &FormattingConfig,
    doc_ref: &mut usize,
) -> (res: Rc<Doc<'a>>)
    requires
        f.keyword.wf() && args_wf(f.arguments) && expr_wf(*f.body),
        config.wf() && args_indent_ok(f.arguments, *config) && expr_indent_ok(*f.body, *config),
        function_def_doc(*f, *config, *old(doc_ref) as nat).1 <= usize::MAX,
    ensures
        *res == function_def_doc(*f, *config, *old(doc_ref) as nat).0,
        *final(doc_ref) == function_def_doc(*f, *config, *old(doc_ref) as nat).1,
    decreases *f, 0nat,
{
    let ghost r0 = *doc_ref as nat;
    proof {
        let r1 = param_list_doc(f.arguments.args@, f.arguments.args@.len(), *config, r0).1;
        lemma_expr_doc_mono(*f.body, *config, r1 + 1);
    }
    let params = param_list_to_docs(&f.arguments.args, config, doc_ref);
    let params = join_docs_ungroupped(params, nil(), config);
    let left = f.arguments.left_delimeter.to_docs(config, doc_ref);
    let right = f.arguments.right_delimeter.to_docs(config, doc_ref);
    let args_doc = match config.function_line_breaks {
        FunctionLineBreaks::Hanging => cons(cons(left, nest_hanging(params)), right),
        FunctionLineBreaks::Double => cons(
            cons(nest(cons(cons(left, nl("")), params), 2 * config.indent), nl("")),
            right,
        ),
        FunctionLineBreaks::Single => cons(
            cons(nest(cons(cons(left, nl("")), params), config.indent), nl("")),
            right,
        ),
    };
    let args_group = to_group(args_doc, ShouldBreak::No, doc_ref);
    let keyword = f.keyword.to_docs(config, doc_ref);
    let body = f.body.to_docs(config, doc_ref);
    to_group(cons(cons(cons(keyword, args_group), text(" ")), body), ShouldBreak::No, doc_ref)
}

fn if_conditional_to_docs<'a>(
    c: &IfConditional<'a>,
    config: &FormattingConfig,
    doc_ref: &mut usize,
) -> (res: Rc<Doc<'a>>)
    requires
        if_conditional_wf(*c),
        if_conditional_indent_ok(*c, *config),
        if_conditional_doc(*c, *config, *old(doc_ref) as nat).1 <= usize::MAX,
    ensures
        *res == if_conditional_doc(*c, *config, *old(doc_ref) as nat).0,
        *final(doc_ref) == if_conditional_doc(*c, *config, *old(doc_ref) as nat).1,
    decreases *c, 0nat,
{
    let ghost r0 = *doc_ref as nat;
    proof {
        lemma_expr_doc_mono(*c.body, *config, expr_doc(*c.condition, *config, r0).1 + 1);
    }
    let left = c.left_delimiter.to_docs(config, doc_ref);
    let condition = c.condition.to_docs(config, doc_ref);
    let right = c.right_delimiter.to_docs(config, doc_ref);
    let condition_docs = to_group(
        cons(cons(nest(cons(cons(left, nl("")), condition), config.indent), nl("")), right),
        ShouldBreak::No,
        doc_ref,
    );
    let keyword = c.keyword.to_docs(config, doc_ref);
    let body = c.body.to_docs(config, doc_ref);
    cons(cons(cons(cons(keyword, text(" ")), condition_docs), text(" ")), body)
}

fn if_to_docs<'a>(i: &IfExpression<'a>, config: &FormattingConfig, doc_ref: &mut usize) -> (res:
    Rc<Doc<'a>>)
    requires
        if_conditional_wf(i.if_conditional) && else_ifs_wf(i.else_ifs@, i.else_ifs@.len())
            && trailing_else_wf(i.trailing_else),
        if_conditional_indent_ok(i.if_conditional, *config) && else_ifs_indent_ok(i.else_ifs@, i.else_ifs@.len(), *config)
            && trailing_else_indent_ok(i.trailing_else, *config),
        if_doc(*i, *config, *old(doc_ref) as nat).1 <= usize::MAX,
    ensures
        *res == if_doc(*i, *config, *old(doc_ref) as nat).0,
        *final(doc_ref) == if_doc(*i, *config, *old(doc_ref) as nat).1,
    decreases *i, 0nat,
{
    let ghost r0 = *doc_ref as nat;
    let ghost first = if_conditional_doc(i.if_conditional, *config, r0).0;
    let ghost r1 = if_conditional_doc(i.if_conditional, *config, r0).1;
    let ghost n = i.else_ifs@.len();
    proof {
        lemma_else_ifs_doc_mono(i.else_ifs@, n, first, *config, r1);
        if let Some(t) = &i.trailing_else {
            lemma_expr_doc_mono(*t.body, *config, else_ifs_doc(i.else_ifs@, n, first, *config, r1).1);
        }
    }
    let mut docs = if_conditional_to_docs(&i.if_conditional, config, doc_ref);
    let mut k: usize = 0;
    while k < i.else_ifs.len()
        invariant
            k <= n == i.else_ifs@.len(),
            else_ifs_wf(i.else_ifs@, n),
            else_ifs_indent_ok(i.else_ifs@, n, *config),
            else_ifs_doc(i.else_ifs@, n, first, *config, r1).1 <= usize::MAX,
            *docs == else_ifs_doc(i.else_ifs@, k as nat, first, *config, r1).0,
            *doc_ref == else_ifs_doc(i.else_ifs@, k as nat, first, *config, r1).1,
        decreases n - k,
    {
        proof {
            lemma_else_ifs_wf_at(i.else_ifs@, n, k as int);
            lemma_else_ifs_indent_ok_at(i.else_ifs@, n, *config, k as int);
            lemma_else_ifs_doc_prefix(i.else_ifs@, (k + 1) as nat, n, first, *config, r1);
        }
        let else_if = &i.else_ifs[k];
        let else_keyword = else_if.else_keyword.to_docs(config, doc_ref);
        let conditional = if_conditional_to_docs(&else_if.if_conditional, config, doc_ref);
        docs = cons(cons(cons(cons(docs, text(" ")), else_keyword), text(" ")), conditional);
        k = k + 1;
    }
    if let Some(trailing_else) = &i.trailing_else {
        let else_keyword = trailing_else.else_keyword.to_docs(config, doc_ref);
        let body = trailing_else.body.to_docs(config, doc_ref);
        docs = cons(cons(cons(cons(docs, text(" ")), else_keyword), text(" ")), body);
    }
    docs
}

fn for_loop_to_docs<'a>(f: &ForLoop<'a>, config: &FormattingConfig, doc_ref: &mut usize) -> (res:
    Rc<Doc<'a>>)
    requires
        f.keyword.wf() && f.left_delim.wf() && expr_wf(*f.identifier) && f.in_keyword.wf()
            && expr_wf(*f.collection) && f.right_delim.wf() && expr_wf(*f.body),
        expr_indent_ok(*f.identifier, *config) && expr_indent_ok(*f.collection, *config)
            && expr_indent_ok(*f.body, *config),
        for_doc(*f, *config, *old(doc_ref) as nat).1 <= usize::MAX,
    ensures
        *res == for_doc(*f, *config, *old(doc_ref) as nat).0,
        *final(doc_ref) == for_doc(*f, *config, *old(doc_ref) as nat).1,
    decreases *f, 0nat,
{
    let ghost r0 = *doc_ref as nat;
    proof {
        let r1 = expr_doc(*f.identifier, *config, r0).1;
        lemma_expr_doc_mono(*f.collection, *config, r1);
        let r2 = expr_doc(*f.collection, *config, r1).1;
        lemma_expr_doc_mono(*f.body, *config, r2 + 1);
    }
    let keyword = f.keyword.to_docs(config, doc_ref);
    let left = f.left_delim.to_docs(config, doc_ref);
    let identifier = f.identifier.to_docs(config, doc_ref);
    let in_keyword = f.in_keyword.to_docs(config, doc_ref);
    let collection = f.collection.to_docs(config, doc_ref);
    let inside = cons(
        cons(
            cons(cons(cons(cons(cons(text(" "), left), nl("")), identifier), text(" ")), in_keyword),
            nl(" "),
        ),
        collection,
    );
    let right = f.right_delim.to_docs(config, doc_ref);
    let head = to_group(
        cons(cons(cons(keyword, nest(inside, config.indent)), nl("")), right),
        ShouldBreak::No,
        doc_ref,
    );
    let body = f.body.to_docs(config, doc_ref);
    to_group(cons(cons(head, text(" ")), body), ShouldBreak::No, doc_ref)
}

} // verus!
