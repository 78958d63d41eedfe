use formatter::tokens::{CommentedToken, Token};
use formatter::whitespace::{is_comment_or_newline, whitespace_or_comment};

fn commented_tokens<'a>(tokens: &[Token<'a>]) -> Vec<CommentedToken<'a>> {
    tokens.iter().map(|t| CommentedToken::new(*t, 0, 0)).collect()
}

#[test]
fn parses_newline() {
    let tokens = commented_tokens(&[Token::Newline, Token::EOF]);
    let res = whitespace_or_comment(&tokens).unwrap().1;
    assert_eq!(res, &tokens[..1]);

    let tokens = commented_tokens(&[Token::Newline, Token::Newline, Token::EOF]);
    let res = whitespace_or_comment(&tokens).unwrap().1;
    assert_eq!(res, &tokens[..2]);
}

#[test]
fn parses_comments() {
    let tokens = commented_tokens(&[Token::Comment("hello"), Token::EOF]);
    let res = whitespace_or_comment(&tokens).unwrap().1;
    assert_eq!(res, &tokens[..1]);

    let tokens =
        commented_tokens(&[Token::Comment("hello"), Token::Comment("world"), Token::EOF]);
    let res = whitespace_or_comment(&tokens).unwrap().1;
    assert_eq!(res, &tokens[..2]);
}

#[test]
fn parses_mixed_comments_and_newlines() {
    let tokens = commented_tokens(&[
        Token::Comment("hello"),
        Token::Newline,
        Token::Comment("world"),
        Token::EOF,
    ]);
    let res = whitespace_or_comment(&tokens).unwrap().1;
    assert_eq!(res, &tokens[..3]);
}

#[test]
fn does_not_parse_eof() {
    let tokens = commented_tokens(&[Token::EOF]);
    let res = whitespace_or_comment(&tokens);
    assert!(res.is_err());
}

#[test]
fn rest_follows_the_run() {
    let tokens = commented_tokens(&[
        Token::Newline,
        Token::Comment("c"),
        Token::Symbol("x"),
        Token::Newline,
    ]);
    let (rest, ws) = whitespace_or_comment(&tokens).unwrap();
    assert_eq!(ws, &tokens[..2]);
    assert_eq!(rest, &tokens[2..]);
}

#[test]
fn whole_input_can_be_a_run() {
    let tokens = commented_tokens(&[Token::Comment("a"), Token::Newline]);
    let (rest, ws) = whitespace_or_comment(&tokens).unwrap();
    assert_eq!(ws, &tokens[..]);
    assert!(rest.is_empty());
}

#[test]
fn empty_input_is_an_error() {
    let tokens: Vec<CommentedToken> = Vec::new();
    assert!(whitespace_or_comment(&tokens).is_err());
    match whitespace_or_comment(&tokens) {
        Err(nom::Err::Error(e)) => {
            assert!(e.input.is_empty());
            assert_eq!(e.code, nom::error::ErrorKind::Tag);
        }
        other => panic!("unexpected result {:?}", other),
    }
}

#[test]
fn error_is_a_tag_error_at_the_input() {
    let tokens = commented_tokens(&[Token::Symbol("x"), Token::Newline]);
    match whitespace_or_comment(&tokens) {
        Err(nom::Err::Error(e)) => {
            assert_eq!(e.input, &tokens[..]);
            assert_eq!(e.code, nom::error::ErrorKind::Tag);
        }
        other => panic!("unexpected result {:?}", other),
    }
}

#[test]
fn comments_and_newlines_are_recognised() {
    assert!(is_comment_or_newline(&CommentedToken::new(Token::Comment("# x"), 1, 0)));
    assert!(is_comment_or_newline(&CommentedToken::new(Token::Newline, 1, 0)));
    assert!(!is_comment_or_newline(&CommentedToken::new(Token::InlineComment("# x"), 1, 0)));
    assert!(!is_comment_or_newline(&CommentedToken::new(Token::EOF, 1, 0)));
}
