use formatter::ast::{Arg, Args, Delimiter, Expression, FunctionCall, Lambda, RepeatExpression, TermExpr};
use formatter::code::{
    contains_closure, is_embracing_operator_closure, join_docs, join_docs_ungroupped,
    should_break_args,
};
use formatter::config::{FormattingConfig, FunctionLineBreaks};
use formatter::doc::{CommonProperties, Doc, GroupDocProperties, InlineCommentPosition, ShouldBreak};
use formatter::tokens::{CommentedToken, Token};
use std::rc::Rc;

fn config() -> FormattingConfig {
    FormattingConfig {
        line_length: 120,
        indent: 2,
        embracing_op_no_nl: true,
        allow_nl_after_assignment: false,
        space_before_complex_rhs_in_formulas: true,
        strip_suffix_whitespace_in_function_defs: true,
        function_line_breaks: FunctionLineBreaks::Hanging,
    }
}

fn no() -> CommonProperties {
    CommonProperties(InlineCommentPosition::No, 0)
}

fn txt(s: &str) -> Rc<Doc<'_>> {
    Rc::new(Doc::Text(s, s.len(), no()))
}

fn cons<'a>(a: Rc<Doc<'a>>, b: Rc<Doc<'a>>) -> Rc<Doc<'a>> {
    Rc::new(Doc::Cons(a, b, no()))
}

fn group<'a>(d: Rc<Doc<'a>>, sb: ShouldBreak, r: usize) -> Rc<Doc<'a>> {
    Rc::new(Doc::Group(GroupDocProperties(d, sb), CommonProperties(InlineCommentPosition::No, r)))
}

fn nest<'a>(d: Rc<Doc<'a>>, indent: i32) -> Rc<Doc<'a>> {
    Rc::new(Doc::Nest(indent, d, no()))
}

fn brk(s: &str) -> Rc<Doc<'_>> {
    Rc::new(Doc::Break(s))
}

fn nil<'a>() -> Rc<Doc<'a>> {
    Rc::new(Doc::Nil)
}

fn tok(t: Token<'_>) -> CommentedToken<'_> {
    CommentedToken::new(t, 0, 0)
}

#[test]
fn joining_two_docs_puts_a_break_between_them() {
    let mut doc_ref = 0;
    let joined = join_docs(
        vec![txt("test"), txt("test2")],
        nil(),
        ShouldBreak::Yes,
        &config(),
        &mut doc_ref,
    );
    let expected = group(
        cons(cons(cons(cons(nil(), txt("test")), nil()), brk(" ")), txt("test2")),
        ShouldBreak::Yes,
        1,
    );
    assert_eq!(joined, expected);
    assert_eq!(doc_ref, 1);
}

#[test]
fn joining_one_doc_adds_no_break() {
    let mut doc_ref = 5;
    let joined = join_docs(vec![txt("test")], nil(), ShouldBreak::No, &config(), &mut doc_ref);
    assert_eq!(joined, group(cons(nil(), txt("test")), ShouldBreak::No, 6));
    assert_eq!(doc_ref, 6);
}

#[test]
fn joining_skips_nil_docs() {
    let joined = join_docs_ungroupped(vec![nil(), txt("a"), nil(), txt("b")], txt(","), &config());
    let expected = cons(cons(cons(cons(cons(cons(nil(), txt(",")), brk(" ")), txt("a")), txt(",")), brk(" ")), txt("b"));
    assert_eq!(joined, expected);
    assert_eq!(join_docs_ungroupped(vec![nil(), nil()], txt(","), &config()), cons(nil(), nil()));
    assert_eq!(join_docs_ungroupped(vec![], txt(","), &config()), cons(nil(), nil()));
}

#[test]
fn joining_ignores_nil_docs_after_the_first() {
    let plain = join_docs_ungroupped(vec![txt("a"), txt("b")], txt(","), &config());
    let with_nils =
        join_docs_ungroupped(vec![txt("a"), nil(), txt("b"), nil()], txt(","), &config());
    assert_eq!(plain, with_nils);
    assert!(matches!(*plain, Doc::Cons(..)));
    let many_nils = join_docs_ungroupped(
        vec![txt("a"), nil(), nil(), txt("b"), nil(), nil(), nil()],
        txt(","),
        &config(),
    );
    assert_eq!(plain, many_nils);
    let leading = join_docs_ungroupped(vec![nil(), txt("a")], txt(","), &config());
    let leading_more = join_docs_ungroupped(vec![nil(), nil(), nil(), txt("a"), nil()], txt(","), &config());
    assert_eq!(leading, leading_more);
}

/// Lays a document out where everything fits on the line: a group that must
/// break turns its breaks into new lines at the current indentation, any other
/// break prints its text.
fn layout(doc: &Doc<'_>, indent: i32, broken: bool, out: &mut String) {
    match doc {
        Doc::Nil => {}
        Doc::Cons(a, b, _) => {
            layout(a, indent, broken, out);
            layout(b, indent, broken, out);
        }
        Doc::Text(s, _, _) => out.push_str(s),
        Doc::Nest(i, d, _) | Doc::NestIfBreak(i, d, _, _) => layout(d, indent + i, broken, out),
        Doc::NestHanging(d, _) => layout(d, indent, broken, out),
        Doc::Break(s) => {
            if broken {
                out.push('\n');
                for _ in 0..indent {
                    out.push(' ');
                }
            } else {
                out.push_str(s);
            }
        }
        Doc::Group(GroupDocProperties(d, sb), _) => {
            layout(d, indent, matches!(sb, ShouldBreak::Yes), out)
        }
    }
}

fn mock_config() -> FormattingConfig {
    FormattingConfig {
        line_length: 120,
        indent: 0,
        embracing_op_no_nl: true,
        allow_nl_after_assignment: true,
        space_before_complex_rhs_in_formulas: true,
        strip_suffix_whitespace_in_function_defs: true,
        function_line_breaks: FunctionLineBreaks::Hanging,
    }
}

#[test]
fn joining_docs_with_newlines_produces_newlines() {
    let docs = vec![txt("test"), txt("test2")];
    let joined = join_docs(docs, nil(), ShouldBreak::Yes, &mock_config(), &mut 0);
    let mut s = String::new();
    layout(&joined, 0, false, &mut s);
    assert_eq!(s, "test\ntest2")
}

#[test]
fn joinin_docs_with_newlines_does_nothing_for_just_one_doc() {
    let docs = vec![txt("test")];
    let joined = join_docs(docs, nil(), ShouldBreak::No, &mock_config(), &mut 0);
    let mut s = String::new();
    layout(&joined, 0, false, &mut s);
    assert_eq!(s, "test")
}

#[test]
fn tokens_become_their_text() {
    let mut doc_ref = 3;
    assert_eq!(Token::LAssign.to_docs(&config(), &mut doc_ref), txt("<-"));
    assert_eq!(Token::NsGetInt.to_docs(&config(), &mut doc_ref), txt(":::"));
    assert_eq!(Token::Lambda.to_docs(&config(), &mut doc_ref), txt("\\"));
    assert_eq!(Token::Symbol("abc").to_docs(&config(), &mut doc_ref), txt("abc"));
    assert_eq!(Token::EOF.to_docs(&config(), &mut doc_ref), txt(""));
    assert_eq!(
        Token::InlineComment("# c").to_docs(&config(), &mut doc_ref),
        Rc::new(Doc::Text("# c", 0, no()))
    );
    assert_eq!(doc_ref, 3);
}

#[test]
fn inline_comment_follows_its_token() {
    let mut t = tok(Token::Symbol("x"));
    t.inline_comment = Some("# c");
    let mut doc_ref = 0;
    let doc = t.to_docs(&config(), &mut doc_ref);
    let end = CommonProperties(InlineCommentPosition::End, 0);
    let expected = Rc::new(Doc::Cons(
        cons(txt("x"), txt(" ")),
        Rc::new(Doc::Text("# c", 0, end)),
        end,
    ));
    assert_eq!(doc, expected);
    assert_eq!(doc_ref, 0);
}

#[test]
fn leading_comments_break_above_their_token() {
    let mut t = tok(Token::Symbol("x"));
    t.leading_comments = Some(vec!["# a", "# b"]);
    let mut doc_ref = 7;
    let doc = t.to_docs(&config(), &mut doc_ref);
    let comments = cons(cons(txt("# a"), brk("")), Rc::new(Doc::Text("# b", 0, no())));
    let leading = group(Rc::new(Doc::NestHanging(comments, no())), ShouldBreak::Yes, 1);
    let expected = group(cons(cons(leading, brk("")), group(txt("x"), ShouldBreak::No, 1)), ShouldBreak::Yes, 1);
    assert_eq!(doc, expected);
    assert_eq!(doc_ref, 7);
}

#[test]
fn double_bracket_delimiter_is_both_brackets() {
    let a = tok(Token::LBracket);
    let b = tok(Token::LBracket);
    let mut doc_ref = 0;
    let doc = Delimiter::DoubleBracket((&a, &b)).to_docs(&config(), &mut doc_ref);
    assert_eq!(doc, cons(txt("["), txt("[")));
}

#[test]
fn assignment_without_newline_is_grouped() {
    let x = tok(Token::Symbol("x"));
    let op = tok(Token::LAssign);
    let one = tok(Token::Literal("1"));
    let e = Expression::Bop(&op, Box::new(Expression::Symbol(&x)), Box::new(Expression::Literal(&one)));
    let mut doc_ref = 0;
    let doc = e.to_docs(&config(), &mut doc_ref);
    let expected = group(cons(cons(cons(txt("x"), txt(" ")), txt("<-")), cons(txt(" "), txt("1"))), ShouldBreak::No, 1);
    assert_eq!(doc, expected);
    assert_eq!(doc_ref, 1);
}

#[test]
fn spaced_operator_nests_its_right_side() {
    let x = tok(Token::Symbol("x"));
    let op = tok(Token::Plus);
    let one = tok(Token::Literal("1"));
    let e = Expression::Bop(&op, Box::new(Expression::Symbol(&x)), Box::new(Expression::Literal(&one)));
    let mut doc_ref = 0;
    let doc = e.to_docs(&config(), &mut doc_ref);
    let expected = cons(cons(cons(txt("x"), txt(" ")), txt("+")), nest(cons(brk(" "), txt("1")), 2));
    assert_eq!(doc, expected);
    assert_eq!(doc_ref, 0);
}

#[test]
fn tight_operator_has_no_spaces() {
    let x = tok(Token::Symbol("x"));
    let op = tok(Token::Dollar);
    let y = tok(Token::Symbol("y"));
    let e = Expression::Bop(&op, Box::new(Expression::Symbol(&x)), Box::new(Expression::Symbol(&y)));
    let mut doc_ref = 4;
    let doc = e.to_docs(&config(), &mut doc_ref);
    assert_eq!(doc, group(cons(cons(txt("x"), txt("$")), txt("y")), ShouldBreak::No, 5));
    assert_eq!(doc_ref, 5);
}

#[test]
fn formula_on_a_symbol_has_no_space() {
    let tilde = tok(Token::Tilde);
    let x = tok(Token::Symbol("x"));
    let e = Expression::Formula(&tilde, Box::new(Expression::Symbol(&x)));
    let mut doc_ref = 0;
    assert_eq!(e.to_docs(&config(), &mut doc_ref), cons(cons(txt("~"), txt("")), txt("x")));
}

#[test]
fn newline_is_a_hard_break_text() {
    let nl = tok(Token::Newline);
    let mut doc_ref = 0;
    assert_eq!(Expression::Newline(&nl).to_docs(&config(), &mut doc_ref), brk("\n"));
}

#[test]
fn function_call_reserves_its_reference_first() {
    let f = tok(Token::Symbol("f"));
    let lp = tok(Token::LParen);
    let rp = tok(Token::RParen);
    let x = tok(Token::Symbol("x"));
    let e = Expression::FunctionCall(FunctionCall {
        function_ref: Box::new(Expression::Symbol(&f)),
        args: Args {
            left_delimeter: Delimiter::Paren(&lp),
            args: vec![Arg(Some(Expression::Symbol(&x)), None)],
            right_delimeter: Delimiter::Paren(&rp),
        },
    });
    let mut doc_ref = 10;
    let doc = e.to_docs(&config(), &mut doc_ref);
    let inside = Rc::new(Doc::NestIfBreak(2, cons(brk(""), group(txt("x"), ShouldBreak::No, 12)), no(), 11));
    let args = cons(cons(cons(txt("("), inside), brk("")), txt(")"));
    assert_eq!(doc, group(cons(txt("f"), args), ShouldBreak::No, 11));
    assert_eq!(doc_ref, 12);
}

#[test]
fn empty_braces_nest_the_break() {
    let lb = tok(Token::LBrace);
    let rb = tok(Token::RBrace);
    let e = Expression::Term(Box::new(TermExpr { pre_delimiters: Some(&lb), term: vec![], post_delimiters: Some(&rb) }));
    let mut doc_ref = 3;
    let doc = e.to_docs(&config(), &mut doc_ref);
    assert_eq!(doc, group(cons(nest(cons(txt("{"), brk("")), 2), txt("}")), ShouldBreak::No, 1));
    assert_eq!(doc_ref, 3);
}

#[test]
fn braces_break_around_their_expressions() {
    let lb = tok(Token::LBrace);
    let rb = tok(Token::RBrace);
    let x = tok(Token::Symbol("x"));
    let e = Expression::Term(Box::new(TermExpr {
        pre_delimiters: Some(&lb),
        term: vec![Expression::Symbol(&x)],
        post_delimiters: Some(&rb),
    }));
    let mut doc_ref = 0;
    let doc = e.to_docs(&config(), &mut doc_ref);
    let joined = group(cons(nil(), group(txt("x"), ShouldBreak::No, 1)), ShouldBreak::Yes, 2);
    let expected = group(
        cons(cons(cons(txt("{"), nest(cons(brk(" "), joined), 2)), brk(" ")), txt("}")),
        ShouldBreak::Yes,
        3,
    );
    assert_eq!(doc, expected);
    assert_eq!(doc_ref, 3);
}

#[test]
fn embracing_operator_stays_on_one_line() {
    let lb1 = tok(Token::LBrace);
    let rb1 = tok(Token::RBrace);
    let lb2 = tok(Token::LBrace);
    let rb2 = tok(Token::RBrace);
    let x = tok(Token::Symbol("x"));
    let inner = Expression::Term(Box::new(TermExpr {
        pre_delimiters: Some(&lb2),
        term: vec![Expression::Symbol(&x)],
        post_delimiters: Some(&rb2),
    }));
    let outer = TermExpr { pre_delimiters: Some(&lb1), term: vec![inner], post_delimiters: Some(&rb1) };
    assert!(is_embracing_operator_closure(&outer));
    let e = Expression::Term(Box::new(outer));
    assert!(!contains_closure(&e));
    let mut doc_ref = 0;
    let doc = e.to_docs(&config(), &mut doc_ref);
    let joined = group(cons(nil(), txt("x")), ShouldBreak::No, 1);
    let d = cons(cons(cons(cons(cons(cons(txt("{"), txt("{")), txt(" ")), joined), txt(" ")), txt("}")), txt("}"));
    assert_eq!(doc, group(d, ShouldBreak::No, 2));
    assert_eq!(doc_ref, 2);
}

fn call_args<'a>(values: Vec<Option<Expression<'a>>>, lp: &'a CommentedToken<'a>, rp: &'a CommentedToken<'a>) -> Args<'a> {
    Args {
        left_delimeter: Delimiter::Paren(lp),
        args: values.into_iter().map(|v| Arg(v, None)).collect(),
        right_delimeter: Delimiter::Paren(rp),
    }
}

#[test]
fn arguments_break_when_a_closure_is_not_last() {
    let lp = tok(Token::LParen);
    let rp = tok(Token::RParen);
    let lb = tok(Token::LBrace);
    let rb = tok(Token::RBrace);
    let x = tok(Token::Symbol("x"));
    let block = || Expression::Term(Box::new(TermExpr { pre_delimiters: Some(&lb), term: vec![], post_delimiters: Some(&rb) }));
    let args = call_args(vec![Some(block()), Some(Expression::Symbol(&x))], &lp, &rp);
    assert_eq!(should_break_args(&args), ShouldBreak::Yes);
    let args = call_args(vec![Some(Expression::Symbol(&x)), Some(block())], &lp, &rp);
    assert_eq!(should_break_args(&args), ShouldBreak::No);
    let args = call_args(vec![Some(block())], &lp, &rp);
    assert_eq!(should_break_args(&args), ShouldBreak::No);
    let args = call_args(vec![None, Some(block()), None], &lp, &rp);
    assert_eq!(should_break_args(&args), ShouldBreak::Yes);
    let args = call_args(vec![], &lp, &rp);
    assert_eq!(should_break_args(&args), ShouldBreak::No);
}

#[test]
fn repeat_is_a_closure_and_lambda_is_not() {
    let rep = tok(Token::Repeat);
    let x = tok(Token::Symbol("x"));
    let lambda_kw = tok(Token::Lambda);
    let lp = tok(Token::LParen);
    let rp = tok(Token::RParen);
    let r = Expression::RepeatExpression(RepeatExpression { repeat_keyword: &rep, body: Box::new(Expression::Symbol(&x)) });
    assert!(contains_closure(&r));
    let l = Expression::LambdaFunction(Lambda {
        keyword: &lambda_kw,
        args: call_args(vec![], &lp, &rp),
        body: Box::new(Expression::RepeatExpression(RepeatExpression { repeat_keyword: &rep, body: Box::new(Expression::Symbol(&x)) })),
    });
    assert!(!contains_closure(&l));
    let plus = tok(Token::Plus);
    let b = Expression::Bop(&plus, Box::new(Expression::Symbol(&x)), Box::new(r));
    assert!(contains_closure(&b));
}

#[test]
fn parentheses_are_not_closures() {
    let lp = tok(Token::LParen);
    let rp = tok(Token::RParen);
    let x = tok(Token::Symbol("x"));
    let t = Expression::Term(Box::new(TermExpr { pre_delimiters: Some(&lp), term: vec![Expression::Symbol(&x)], post_delimiters: Some(&rp) }));
    assert!(!contains_closure(&t));
    let bare = Expression::Term(Box::new(TermExpr { pre_delimiters: None, term: vec![Expression::Symbol(&x)], post_delimiters: None }));
    assert!(!contains_closure(&bare));
}

#[test]
fn newline_does_not_read_its_token() {
    let mut newline = tok(Token::Newline);
    newline.leading_comments = Some(vec![]);
    let mut doc_ref = 4;
    let doc = Expression::Newline(&newline).to_docs(&config(), &mut doc_ref);
    assert_eq!(doc, brk("\n"));
    assert_eq!(doc_ref, 4);
}

#[test]
fn huge_indent_is_fine_without_function_definitions() {
    let mut cfg = config();
    cfg.function_line_breaks = FunctionLineBreaks::Double;
    cfg.indent = i32::MAX;
    let plus = tok(Token::Plus);
    let x = tok(Token::Symbol("x"));
    let y = tok(Token::Symbol("y"));
    let e = Expression::Bop(&plus, Box::new(Expression::Symbol(&x)), Box::new(Expression::Symbol(&y)));
    let mut doc_ref = 0;
    let doc = e.to_docs(&cfg, &mut doc_ref);
    let expected = cons(cons(cons(txt("x"), txt(" ")), txt("+")), nest(cons(brk(" "), txt("y")), i32::MAX));
    assert_eq!(doc, expected);
    assert_eq!(doc_ref, 0);
}
