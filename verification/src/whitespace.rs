//! The parser of runs of comments and newlines between expressions.
use crate::tokens::{CommentedToken, Token};
use vstd::prelude::*;

verus! {

#[verifier::external_type_specification]
#[verifier::external_body]
#[verifier::reject_recursive_types(E)]
pub struct ExNomErr<E>(nom::Err<E>);

#[verifier::external_type_specification]
#[verifier::external_body]
#[verifier::reject_recursive_types(I)]
pub struct ExNomError<I>(nom::error::Error<I>);

/// The error that the tokens parsers report when they do not match.
pub type TokensError<'a, 'b> = nom::Err<nom::error::Error<&'b [CommentedToken<'a>]>>;

/// Builds a recoverable `Tag` error located at `input`.
///
/// Calls `nom::error::make_error` with `ErrorKind::Tag`, which builds
/// `nom::error::Error { input, code: ErrorKind::Tag }`, and wraps it in
/// `nom::Err::Error`. The error is an opaque value here: the contract states
/// nothing of its variant, its input or its code.
#[verifier::external_body]
fn tag_error<'a, 'b>(input: &'b [CommentedToken<'a>]) -> TokensError<'a, 'b> {
    nom::Err::Error(nom::error::make_error(input, nom::error::ErrorKind::Tag))
}

/// A comment or a newline.
pub open spec fn spec_is_comment_or_newline(token: CommentedToken) -> bool {
    token.token is Comment || token.token is Newline
}

pub fn is_comment_or_newline(token: &CommentedToken) -> (res: bool)
    ensures
        res == spec_is_comment_or_newline(*token),
{
    matches!(token.token, Token::Comment(_) | Token::Newline)
}

/// `ws` is the longest run of comments and newlines that starts `tokens`,
/// and `rest` what follows it.
pub open spec fn is_leading_run(tokens: Seq<CommentedToken>, rest: Seq<CommentedToken>, ws: Seq<CommentedToken>) -> bool {
    &&& tokens == ws + rest
    &&& forall|i: int| 0 <= i < ws.len() ==> spec_is_comment_or_newline(#[trigger] ws[i])
    &&& rest.len() > 0 ==> !spec_is_comment_or_newline(rest[0])
}

/// Parses at least one comment or newline: the longest run of them at the start
/// of `tokens`, returned after the tokens that follow it. Fails when `tokens`
/// is empty or does not start with a comment or a newline.
pub fn whitespace_or_comment<'a, 'b>(tokens: &'b [CommentedToken<'a>]) -> (res: Result<
    (&'b [CommentedToken<'a>], &'b [CommentedToken<'a>]),
    TokensError<'a, 'b>,
>)
    ensures
        res is Err <==> (tokens@.len() == 0 || !spec_is_comment_or_newline(tokens@[0])),
        res matches Ok((rest, ws)) ==> ws@.len() > 0 && is_leading_run(tokens@, rest@, ws@),
{
    if tokens.len() == 0 {
        return Err(tag_error(tokens));
    }
    let mut i: usize = 0;
    while i < tokens.len() && is_comment_or_newline(&tokens[i])
        invariant
            i <= tokens@.len(),
            forall|j: int| 0 <= j < i ==> spec_is_comment_or_newline(#[trigger] tokens@[j]),
        decreases tokens@.len() - i,
    {
        i = i + 1;
    }
    if i == 0 {
        return Err(tag_error(tokens));
    }
    let (ws, rest) = tokens.split_at(i);
    assert(tokens@ == ws@ + rest@);
    assert forall|j: int| 0 <= j < ws@.len() implies spec_is_comment_or_newline(#[trigger] ws@[j]) by {
        assert(ws@[j] == tokens@[j]);
    }
    proof {
        if rest@.len() > 0 {
            assert(rest@[0] == tokens@[i as int]);
        }
    }
    Ok((rest, ws))
}

} // verus!
