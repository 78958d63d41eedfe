use formatter::ast::{
    Arg, Args, Delimiter, ElseIfConditional, Expression, ForLoop, FunctionDefinition,
    IfConditional, IfExpression, TermExpr, TrailingElse,
};
use formatter::code::args_to_docs_with_conditional_nest;
use formatter::config::{FormattingConfig, FunctionLineBreaks};
use formatter::doc::Doc;
use formatter::tokens::{CommentedToken, Token};

fn config(breaks: FunctionLineBreaks) -> FormattingConfig {
    FormattingConfig {
        line_length: 80,
        indent: 4,
        embracing_op_no_nl: false,
        allow_nl_after_assignment: true,
        space_before_complex_rhs_in_formulas: true,
        strip_suffix_whitespace_in_function_defs: true,
        function_line_breaks: breaks,
    }
}

fn texts<'a>(doc: &Doc<'a>, out: &mut Vec<&'a str>) {
    match doc {
        Doc::Nil | Doc::Break(_) => {}
        Doc::Cons(a, b, _) => {
            texts(a, out);
            texts(b, out);
        }
        Doc::Text(s, _, _) => out.push(s),
        Doc::Nest(_, d, _) | Doc::NestIfBreak(_, d, _, _) | Doc::NestHanging(d, _) => texts(d, out),
        Doc::Group(g, _) => texts(&g.0, out),
    }
}

fn visible_texts<'a>(doc: &Doc<'a>) -> Vec<&'a str> {
    let mut out = Vec::new();
    texts(doc, &mut out);
    out.into_iter().filter(|s| !s.is_empty() && *s != " ").collect()
}

fn tok(t: Token<'_>) -> CommentedToken<'_> {
    CommentedToken::new(t, 0, 0)
}

#[test]
fn function_definition_keeps_its_tokens() {
    let function = tok(Token::Function);
    let lp = tok(Token::LParen);
    let rp = tok(Token::RParen);
    let a = tok(Token::Symbol("a"));
    let comma = tok(Token::Comma);
    let b = tok(Token::Symbol("b"));
    let lb = tok(Token::LBrace);
    let rb = tok(Token::RBrace);
    let plus = tok(Token::Plus);
    let mut x = tok(Token::Symbol("a"));
    x.leading_comments = Some(vec!["# sum"]);
    let mut y = tok(Token::Symbol("b"));
    y.inline_comment = Some("# done");
    for breaks in [FunctionLineBreaks::Hanging, FunctionLineBreaks::Double, FunctionLineBreaks::Single] {
        let body = Expression::Term(Box::new(TermExpr {
            pre_delimiters: Some(&lb),
            term: vec![Expression::Bop(&plus, Box::new(Expression::Symbol(&x)), Box::new(Expression::Symbol(&y)))],
            post_delimiters: Some(&rb),
        }));
        let e = Expression::FunctionDef(FunctionDefinition {
            keyword: &function,
            arguments: Args {
                left_delimeter: Delimiter::Paren(&lp),
                args: vec![Arg(Some(Expression::Symbol(&a)), Some(&comma)), Arg(Some(Expression::Symbol(&b)), None)],
                right_delimeter: Delimiter::Paren(&rp),
            },
            body: Box::new(body),
        });
        let mut doc_ref = 0;
        let doc = e.to_docs(&config(breaks), &mut doc_ref);
        assert_eq!(
            visible_texts(&doc),
            vec!["function", "(", "a", ",", "b", ")", "{", "# sum", "a", "+", "b", "# done", "}"]
        );
        assert!(doc_ref > 0);
    }
}

#[test]
fn if_else_keeps_its_tokens() {
    let if_kw = tok(Token::If);
    let lp = tok(Token::LParen);
    let rp = tok(Token::RParen);
    let c1 = tok(Token::Symbol("c1"));
    let c2 = tok(Token::Symbol("c2"));
    let one = tok(Token::Literal("1"));
    let two = tok(Token::Literal("2"));
    let three = tok(Token::Literal("3"));
    let else_kw = tok(Token::Else);
    let e = Expression::IfExpression(IfExpression {
        if_conditional: IfConditional {
            keyword: &if_kw,
            left_delimiter: &lp,
            condition: Box::new(Expression::Symbol(&c1)),
            right_delimiter: &rp,
            body: Box::new(Expression::Literal(&one)),
        },
        else_ifs: vec![ElseIfConditional {
            else_keyword: &else_kw,
            if_conditional: IfConditional {
                keyword: &if_kw,
                left_delimiter: &lp,
                condition: Box::new(Expression::Symbol(&c2)),
                right_delimiter: &rp,
                body: Box::new(Expression::Literal(&two)),
            },
        }],
        trailing_else: Some(TrailingElse { else_keyword: &else_kw, body: Box::new(Expression::Literal(&three)) }),
    });
    let mut doc_ref = 0;
    let doc = e.to_docs(&config(FunctionLineBreaks::Hanging), &mut doc_ref);
    assert_eq!(
        visible_texts(&doc),
        vec!["if", "(", "c1", ")", "1", "else", "if", "(", "c2", ")", "2", "else", "3"]
    );
    assert_eq!(doc_ref, 2);
}

#[test]
fn for_loop_keeps_its_tokens() {
    let for_kw = tok(Token::For);
    let lp = tok(Token::LParen);
    let rp = tok(Token::RParen);
    let i = tok(Token::Symbol("i"));
    let in_kw = tok(Token::In);
    let xs = tok(Token::Symbol("xs"));
    let nl = tok(Token::Newline);
    let body = tok(Token::Symbol("print"));
    let e = Expression::ForLoopExpression(ForLoop {
        keyword: &for_kw,
        left_delim: &lp,
        identifier: Box::new(Expression::Symbol(&i)),
        in_keyword: &in_kw,
        collection: Box::new(Expression::Symbol(&xs)),
        right_delim: &rp,
        body: Box::new(Expression::Term(Box::new(TermExpr {
            pre_delimiters: None,
            term: vec![Expression::Newline(&nl), Expression::Symbol(&body)],
            post_delimiters: None,
        }))),
    });
    let mut doc_ref = 0;
    let doc = e.to_docs(&config(FunctionLineBreaks::Hanging), &mut doc_ref);
    assert_eq!(visible_texts(&doc), vec!["for", "(", "i", "in", "xs", ")", "print"]);
}

#[test]
fn counter_never_goes_down() {
    let x = tok(Token::Symbol("x"));
    let e = Expression::Symbol(&x);
    let mut doc_ref = 41;
    e.to_docs(&config(FunctionLineBreaks::Hanging), &mut doc_ref);
    assert_eq!(doc_ref, 41);
}

fn flat(doc: &Doc<'_>, out: &mut String) {
    match doc {
        Doc::Nil => {}
        Doc::Break(s) | Doc::Text(s, _, _) => out.push_str(s),
        Doc::Cons(a, b, _) => {
            flat(a, out);
            flat(b, out);
        }
        Doc::Nest(_, d, _) | Doc::NestIfBreak(_, d, _, _) | Doc::NestHanging(d, _) => flat(d, out),
        Doc::Group(g, _) => flat(&g.0, out),
    }
}

fn flat_string(doc: &Doc<'_>) -> String {
    let mut out = String::new();
    flat(doc, &mut out);
    out
}

#[test]
fn function_line_break_modes_print_the_same_flat_text() {
    let function = tok(Token::Function);
    let lp = tok(Token::LParen);
    let rp = tok(Token::RParen);
    let a = tok(Token::Symbol("a"));
    let comma = tok(Token::Comma);
    let b = tok(Token::Symbol("b"));
    let x = tok(Token::Symbol("x"));
    let def = || {
        Expression::FunctionDef(FunctionDefinition {
            keyword: &function,
            arguments: Args {
                left_delimeter: Delimiter::Paren(&lp),
                args: vec![Arg(Some(Expression::Symbol(&a)), Some(&comma)), Arg(Some(Expression::Symbol(&b)), None)],
                right_delimeter: Delimiter::Paren(&rp),
            },
            body: Box::new(Expression::Symbol(&x)),
        })
    };
    let mut counters = Vec::new();
    for (breaks, start) in [(FunctionLineBreaks::Hanging, 0), (FunctionLineBreaks::Double, 7), (FunctionLineBreaks::Single, 40)] {
        let mut cfg = config(breaks);
        cfg.indent = start as i32 % 5;
        let mut doc_ref = start;
        let doc = def().to_docs(&cfg, &mut doc_ref);
        assert_eq!(flat_string(&doc), "function(a, b) x");
        assert!(doc_ref >= start);
        counters.push(doc_ref - start);
    }
    assert_eq!(counters, vec![4, 4, 4]);
}

#[test]
fn assignment_prints_the_same_flat_text_with_or_without_breaks() {
    let assign = tok(Token::LAssign);
    let x = tok(Token::Symbol("x"));
    let one = tok(Token::Literal("1"));
    let e = Expression::Bop(&assign, Box::new(Expression::Symbol(&x)), Box::new(Expression::Literal(&one)));
    let mut with_nl = config(FunctionLineBreaks::Hanging);
    with_nl.allow_nl_after_assignment = true;
    let mut without_nl = with_nl.clone();
    without_nl.allow_nl_after_assignment = false;
    let d1 = e.to_docs(&with_nl, &mut 0);
    let d2 = e.to_docs(&without_nl, &mut 0);
    assert_ne!(d1, d2);
    assert_eq!(flat_string(&d1), "x <- 1");
    assert_eq!(flat_string(&d2), "x <- 1");
}

#[test]
fn conditional_nest_differs_only_in_the_nest() {
    let lp = tok(Token::LParen);
    let rp = tok(Token::RParen);
    let a = tok(Token::Symbol("a"));
    let comma = tok(Token::Comma);
    let b = tok(Token::Symbol("b"));
    let args = Args {
        left_delimeter: Delimiter::Paren(&lp),
        args: vec![Arg(Some(Expression::Symbol(&a)), Some(&comma)), Arg(Some(Expression::Symbol(&b)), None)],
        right_delimeter: Delimiter::Paren(&rp),
    };
    let cfg = config(FunctionLineBreaks::Hanging);
    let mut r1 = 3;
    let mut r2 = 3;
    let plain = args.to_docs(&cfg, &mut r1);
    let conditional = args_to_docs_with_conditional_nest(&args, &cfg, &mut r2, 9);
    assert_eq!(r1, r2);
    assert_eq!(r1, 5);
    assert_eq!(flat_string(&plain), "(a, b)");
    assert_eq!(flat_string(&conditional), "(a, b)");
    match (&*plain, &*conditional) {
        (Doc::Cons(l1, rd1, _), Doc::Cons(l2, rd2, _)) => {
            assert_eq!(rd1, rd2);
            match (&**l1, &**l2) {
                (Doc::Cons(ll1, brk1, _), Doc::Cons(ll2, brk2, _)) => {
                    assert_eq!(brk1, brk2);
                    match (&**ll1, &**ll2) {
                        (Doc::Cons(left1, n1, _), Doc::Cons(left2, n2, _)) => {
                            assert_eq!(left1, left2);
                            match (&**n1, &**n2) {
                                (Doc::Nest(i1, inside1, _), Doc::NestIfBreak(i2, inside2, _, o)) => {
                                    assert_eq!(i1, i2);
                                    assert_eq!(inside1, inside2);
                                    assert_eq!(*o, 9);
                                }
                                other => panic!("unexpected nests {:?}", other),
                            }
                        }
                        other => panic!("unexpected shape {:?}", other),
                    }
                }
                other => panic!("unexpected shape {:?}", other),
            }
        }
        other => panic!("unexpected shape {:?}", other),
    }
}
