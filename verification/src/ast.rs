//! The syntax tree of R code that the parser builds from commented tokens.
use crate::config::FormattingConfig;
use crate::tokens::{CommentedToken, Token};
use vstd::prelude::*;

verus! {

/// The delimiters of a call or of a subset: `(`, `[` or `[[`.
#[derive(Debug, PartialEq)]
pub enum Delimiter<'a> {
    Paren(&'a CommentedToken<'a>),
    SingleBracket(&'a CommentedToken<'a>),
    DoubleBracket((&'a CommentedToken<'a>, &'a CommentedToken<'a>)),
}

/// An argument: an optional value and an optional trailing comma.
#[derive(Debug, PartialEq)]
pub struct Arg<'a>(pub Option<Expression<'a>>, pub Option<&'a CommentedToken<'a>>);

#[derive(Debug, PartialEq)]
pub struct Args<'a> {
    pub left_delimeter: Delimiter<'a>,
    pub args: Vec<Arg<'a>>,
    pub right_delimeter: Delimiter<'a>,
}

/// A sequence of expressions, optionally between `(` `)` or `{` `}`.
#[derive(Debug, PartialEq)]
pub struct TermExpr<'a> {
    pub pre_delimiters: Option<&'a CommentedToken<'a>>,
    pub term: Vec<Expression<'a>>,
    pub post_delimiters: Option<&'a CommentedToken<'a>>,
}

#[derive(Debug, PartialEq)]
pub struct FunctionDefinition<'a> {
    pub keyword: &'a CommentedToken<'a>,
    pub arguments: Args<'a>,
    pub body: Box<Expression<'a>>,
}

#[derive(Debug, PartialEq)]
pub struct IfConditional<'a> {
    pub keyword: &'a CommentedToken<'a>,
    pub left_delimiter: &'a CommentedToken<'a>,
    pub condition: Box<Expression<'a>>,
    pub right_delimiter: &'a CommentedToken<'a>,
    pub body: Box<Expression<'a>>,
}

#[derive(Debug, PartialEq)]
pub struct ElseIfConditional<'a> {
    pub else_keyword: &'a CommentedToken<'a>,
    pub if_conditional: IfConditional<'a>,
}

#[derive(Debug, PartialEq)]
pub struct TrailingElse<'a> {
    pub else_keyword: &'a CommentedToken<'a>,
    pub body: Box<Expression<'a>>,
}

#[derive(Debug, PartialEq)]
pub struct IfExpression<'a> {
    pub if_conditional: IfConditional<'a>,
    pub else_ifs: Vec<ElseIfConditional<'a>>,
    pub trailing_else: Option<TrailingElse<'a>>,
}

#[derive(Debug, PartialEq)]
pub struct WhileExpression<'a> {
    pub while_keyword: &'a CommentedToken<'a>,
    pub condition: Box<Expression<'a>>,
    pub body: Box<Expression<'a>>,
}

#[derive(Debug, PartialEq)]
pub struct RepeatExpression<'a> {
    pub repeat_keyword: &'a CommentedToken<'a>,
    pub body: Box<Expression<'a>>,
}

#[derive(Debug, PartialEq)]
pub struct FunctionCall<'a> {
    pub function_ref: Box<Expression<'a>>,
    pub args: Args<'a>,
}

#[derive(Debug, PartialEq)]
pub struct SubsetExpression<'a> {
    pub object_ref: Box<Expression<'a>>,
    pub args: Args<'a>,
}

#[derive(Debug, PartialEq)]
pub struct ForLoop<'a> {
    pub keyword: &'a CommentedToken<'a>,
    pub left_delim: &'a CommentedToken<'a>,
    pub identifier: Box<Expression<'a>>,
    pub in_keyword: &'a CommentedToken<'a>,
    pub collection: Box<Expression<'a>>,
    pub right_delim: &'a CommentedToken<'a>,
    pub body: Box<Expression<'a>>,
}

#[derive(Debug, PartialEq)]
pub struct Lambda<'a> {
    pub keyword: &'a CommentedToken<'a>,
    pub args: Args<'a>,
    pub body: Box<Expression<'a>>,
}

#[derive(Debug, PartialEq)]
pub enum Expression<'a> {
    Symbol(&'a CommentedToken<'a>),
    Literal(&'a CommentedToken<'a>),
    Comment(&'a CommentedToken<'a>),
    Term(Box<TermExpr<'a>>),
    Unary(&'a CommentedToken<'a>, Box<Expression<'a>>),
    Bop(&'a CommentedToken<'a>, Box<Expression<'a>>, Box<Expression<'a>>),
    Formula(&'a CommentedToken<'a>, Box<Expression<'a>>),
    Newline(&'a CommentedToken<'a>),
    Whitespace(&'a [&'a CommentedToken<'a>]),
    EOF(&'a CommentedToken<'a>),
    FunctionDef(FunctionDefinition<'a>),
    LambdaFunction(Lambda<'a>),
    IfExpression(IfExpression<'a>),
    WhileExpression(WhileExpression<'a>),
    RepeatExpression(RepeatExpression<'a>),
    FunctionCall(FunctionCall<'a>),
    SubsetExpression(SubsetExpression<'a>),
    ForLoopExpression(ForLoop<'a>),
    Break(&'a CommentedToken<'a>),
    Continue(&'a CommentedToken<'a>),
}

/// The operator tokens that a binary expression can hold.
pub open spec fn is_binary_operator(token: Token) -> bool {
    match token {
        Token::LAssign | Token::RAssign | Token::OldAssign | Token::Equal | Token::NotEqual
        | Token::LowerThan | Token::GreaterThan | Token::LowerEqual | Token::GreaterEqual
        | Token::Divide | Token::Multiply | Token::Minus | Token::Plus | Token::And
        | Token::VectorizedAnd | Token::Or | Token::VectorizedOr | Token::Pipe | Token::Modulo
        | Token::Tilde | Token::Special(_) | Token::Dollar | Token::NsGet | Token::NsGetInt
        | Token::Colon | Token::Slot | Token::Power | Token::Help => true,
        _ => false,
    }
}

pub open spec fn delimiter_wf(d: Delimiter) -> bool {
    match d {
        Delimiter::Paren(t) => t.wf(),
        Delimiter::SingleBracket(t) => t.wf(),
        Delimiter::DoubleBracket((t1, t2)) => t1.wf() && t2.wf(),
    }
}

pub open spec fn opt_token_wf(t: Option<&CommentedToken>) -> bool {
    t matches Some(t) ==> t.wf()
}

/// The shape that the parser guarantees of the trees it builds and that the
/// formatter relies on: terms have both delimiters or none, binary
/// expressions hold binary operators, and every token that the formatter
/// reads is well formed.
pub open spec fn expr_wf(e: Expression) -> bool
    decreases e, 0nat,
{
    match e {
        Expression::Symbol(t) | Expression::Literal(t) | Expression::Comment(t)
        | Expression::EOF(t) | Expression::Break(t) | Expression::Continue(t) => t.wf(),
        Expression::Newline(_) | Expression::Whitespace(_) => true,
        Expression::Term(term) => term_wf(*term),
        Expression::Unary(op, x) => op.wf() && expr_wf(*x),
        Expression::Formula(op, x) => op.wf() && expr_wf(*x),
        Expression::Bop(op, l, r) => op.wf() && is_binary_operator(op.token) && expr_wf(*l)
            && expr_wf(*r),
        Expression::FunctionDef(f) => f.keyword.wf() && args_wf(f.arguments) && expr_wf(*f.body),
        Expression::LambdaFunction(l) => l.keyword.wf() && args_wf(l.args) && expr_wf(*l.body),
        Expression::IfExpression(i) => if_conditional_wf(i.if_conditional) && else_ifs_wf(
            i.else_ifs@,
            i.else_ifs@.len(),
        ) && trailing_else_wf(i.trailing_else),
        Expression::WhileExpression(w) => w.while_keyword.wf() && expr_wf(*w.condition)
            && expr_wf(*w.body),
        Expression::RepeatExpression(r) => r.repeat_keyword.wf() && expr_wf(*r.body),
        Expression::FunctionCall(c) => expr_wf(*c.function_ref) && args_wf(c.args),
        Expression::SubsetExpression(s) => expr_wf(*s.object_ref) && args_wf(s.args),
        Expression::ForLoopExpression(f) => f.keyword.wf() && f.left_delim.wf()
            && expr_wf(*f.identifier) && f.in_keyword.wf() && expr_wf(*f.collection)
            && f.right_delim.wf() && expr_wf(*f.body),
    }
}

pub open spec fn term_wf(t: TermExpr) -> bool
    decreases t, 0nat,
{
    &&& t.pre_delimiters is Some <==> t.post_delimiters is Some
    &&& opt_token_wf(t.pre_delimiters)
    &&& opt_token_wf(t.post_delimiters)
    &&& exprs_wf(t.term@, t.term@.len())
}

/// The first `n` expressions are well formed.
pub open spec fn exprs_wf(es: Seq<Expression>, n: nat) -> bool
    decreases es, n,
{
    if n == 0 || n > es.len() {
        true
    } else {
        exprs_wf(es, (n - 1) as nat) && expr_wf(es[n - 1])
    }
}

pub open spec fn arg_wf(a: Arg) -> bool
    decreases a, 0nat,
{
    &&& a.0 matches Some(e) ==> expr_wf(e)
    &&& opt_token_wf(a.1)
}

pub open spec fn args_wf(a: Args) -> bool
    decreases a, 0nat,
{
    delimiter_wf(a.left_delimeter) && delimiter_wf(a.right_delimeter) && arg_list_wf(
        a.args@,
        a.args@.len(),
    )
}

/// The first `n` arguments are well formed.
pub open spec fn arg_list_wf(args: Seq<Arg>, n: nat) -> bool
    decreases args, n,
{
    if n == 0 || n > args.len() {
        true
    } else {
        arg_list_wf(args, (n - 1) as nat) && arg_wf(args[n - 1])
    }
}

pub open spec fn if_conditional_wf(c: IfConditional) -> bool
    decreases c, 0nat,
{
    c.keyword.wf() && c.left_delimiter.wf() && expr_wf(*c.condition) && c.right_delimiter.wf()
        && expr_wf(*c.body)
}

/// The first `n` `else if` branches are well formed.
pub open spec fn else_ifs_wf(es: Seq<ElseIfConditional>, n: nat) -> bool
    decreases es, n,
{
    if n == 0 || n > es.len() {
        true
    } else {
        else_ifs_wf(es, (n - 1) as nat) && es[n - 1].else_keyword.wf() && if_conditional_wf(
            es[n - 1].if_conditional,
        )
    }
}

pub open spec fn trailing_else_wf(e: Option<TrailingElse>) -> bool
    decreases e, 0nat,
{
    e matches Some(t) ==> t.else_keyword.wf() && expr_wf(*t.body)
}

} // verus!

verus! {

pub proof fn lemma_exprs_wf_at(es: Seq<Expression>, n: nat, i: int)
    requires
        exprs_wf(es, n),
        0 <= i < n <= es.len(),
    ensures
        expr_wf(es[i]),
    decreases n,
{
    if i < n - 1 {
        lemma_exprs_wf_at(es, (n - 1) as nat, i);
    }
}

pub proof fn lemma_arg_list_wf_at(args: Seq<Arg>, n: nat, i: int)
    requires
        arg_list_wf(args, n),
        0 <= i < n <= args.len(),
    ensures
        arg_wf(args[i]),
    decreases n,
{
    if i < n - 1 {
        lemma_arg_list_wf_at(args, (n - 1) as nat, i);
    }
}

pub proof fn lemma_else_ifs_wf_at(es: Seq<ElseIfConditional>, n: nat, i: int)
    requires
        else_ifs_wf(es, n),
        0 <= i < n <= es.len(),
    ensures
        es[i].else_keyword.wf(),
        if_conditional_wf(es[i].if_conditional),
    decreases n,
{
    if i < n - 1 {
        lemma_else_ifs_wf_at(es, (n - 1) as nat, i);
    }
}

} // verus!

verus! {

// ---------------------------------------------------------------------------
// The indentation that function definitions need
// ---------------------------------------------------------------------------
/// The configuration can lay out every function definition in the expression:
/// only a function definition doubles the indent, so only there must the
/// configuration be well formed.
pub open spec fn expr_indent_ok(e: Expression, cfg: FormattingConfig) -> bool
    decreases e, 0nat,
{
    match e {
        Expression::Symbol(_) | Expression::Literal(_) | Expression::Comment(_)
        | Expression::Newline(_) | Expression::Whitespace(_) | Expression::EOF(_)
        | Expression::Break(_) | Expression::Continue(_) => true,
        Expression::Term(term) => term_indent_ok(*term, cfg),
        Expression::Unary(_, x) => expr_indent_ok(*x, cfg),
        Expression::Formula(_, x) => expr_indent_ok(*x, cfg),
        Expression::Bop(_, l, r) => expr_indent_ok(*l, cfg) && expr_indent_ok(*r, cfg),
        Expression::FunctionDef(f) => cfg.wf() && args_indent_ok(f.arguments, cfg)
            && expr_indent_ok(*f.body, cfg),
        Expression::LambdaFunction(l) => args_indent_ok(l.args, cfg) && expr_indent_ok(*l.body, cfg),
        Expression::IfExpression(i) => if_conditional_indent_ok(i.if_conditional, cfg)
            && else_ifs_indent_ok(i.else_ifs@, i.else_ifs@.len(), cfg) && trailing_else_indent_ok(
            i.trailing_else,
            cfg,
        ),
        Expression::WhileExpression(w) => expr_indent_ok(*w.condition, cfg) && expr_indent_ok(
            *w.body,
            cfg,
        ),
        Expression::RepeatExpression(r) => expr_indent_ok(*r.body, cfg),
        Expression::FunctionCall(c) => expr_indent_ok(*c.function_ref, cfg) && args_indent_ok(
            c.args,
            cfg,
        ),
        Expression::SubsetExpression(s) => expr_indent_ok(*s.object_ref, cfg) && args_indent_ok(
            s.args,
            cfg,
        ),
        Expression::ForLoopExpression(f) => expr_indent_ok(*f.identifier, cfg) && expr_indent_ok(
            *f.collection,
            cfg,
        ) && expr_indent_ok(*f.body, cfg),
    }
}

pub open spec fn term_indent_ok(t: TermExpr, cfg: FormattingConfig) -> bool
    decreases t, 0nat,
{
    exprs_indent_ok(t.term@, t.term@.len(), cfg)
}

/// The first `n` expressions.
pub open spec fn exprs_indent_ok(es: Seq<Expression>, n: nat, cfg: FormattingConfig) -> bool
    decreases es, n,
{
    if n == 0 || n > es.len() {
        true
    } else {
        exprs_indent_ok(es, (n - 1) as nat, cfg) && expr_indent_ok(es[n - 1], cfg)
    }
}

pub open spec fn arg_indent_ok(a: Arg, cfg: FormattingConfig) -> bool
    decreases a, 0nat,
{
    a.0 matches Some(e) ==> expr_indent_ok(e, cfg)
}

pub open spec fn args_indent_ok(a: Args, cfg: FormattingConfig) -> bool
    decreases a, 0nat,
{
    arg_list_indent_ok(a.args@, a.args@.len(), cfg)
}

/// The first `n` arguments.
pub open spec fn arg_list_indent_ok(args: Seq<Arg>, n: nat, cfg: FormattingConfig) -> bool
    decreases args, n,
{
    if n == 0 || n > args.len() {
        true
    } else {
        arg_list_indent_ok(args, (n - 1) as nat, cfg) && arg_indent_ok(args[n - 1], cfg)
    }
}

pub open spec fn if_conditional_indent_ok(c: IfConditional, cfg: FormattingConfig) -> bool
    decreases c, 0nat,
{
    expr_indent_ok(*c.condition, cfg) && expr_indent_ok(*c.body, cfg)
}

/// The first `n` `else if` branches.
pub open spec fn else_ifs_indent_ok(es: Seq<ElseIfConditional>, n: nat, cfg: FormattingConfig) -> bool
    decreases es, n,
{
    if n == 0 || n > es.len() {
        true
    } else {
        else_ifs_indent_ok(es, (n - 1) as nat, cfg) && if_conditional_indent_ok(
            es[n - 1].if_conditional,
            cfg,
        )
    }
}

pub open spec fn trailing_else_indent_ok(e: Option<TrailingElse>, cfg: FormattingConfig) -> bool
    decreases e, 0nat,
{
    e matches Some(t) ==> expr_indent_ok(*t.body, cfg)
}

pub proof fn lemma_exprs_indent_ok_at(es: Seq<Expression>, n: nat, cfg: FormattingConfig, i: int)
    requires
        exprs_indent_ok(es, n, cfg),
        0 <= i < n <= es.len(),
    ensures
        expr_indent_ok(es[i], cfg),
    decreases n,
{
    if i < n - 1 {
        lemma_exprs_indent_ok_at(es, (n - 1) as nat, cfg, i);
    }
}

pub proof fn lemma_arg_list_indent_ok_at(args: Seq<Arg>, n: nat, cfg: FormattingConfig, i: int)
    requires
        arg_list_indent_ok(args, n, cfg),
        0 <= i < n <= args.len(),
    ensures
        arg_indent_ok(args[i], cfg),
    decreases n,
{
    if i < n - 1 {
        lemma_arg_list_indent_ok_at(args, (n - 1) as nat, cfg, i);
    }
}

pub proof fn lemma_else_ifs_indent_ok_at(
    es: Seq<ElseIfConditional>,
    n: nat,
    cfg: FormattingConfig,
    i: int,
)
    requires
        else_ifs_indent_ok(es, n, cfg),
        0 <= i < n <= es.len(),
    ensures
        if_conditional_indent_ok(es[i].if_conditional, cfg),
    decreases n,
{
    if i < n - 1 {
        lemma_else_ifs_indent_ok_at(es, (n - 1) as nat, cfg, i);
    }
}

} // verus!
