//! The document algebra that the formatter builds: a tree of texts, breaks,
//! nestings and groups that a layout pass later turns into lines.
use std::rc::Rc;
use vstd::prelude::*;

verus! {

/// Whether a group has to be laid out broken.
#[derive(Clone, Copy, Debug, PartialEq, Eq, Structural)]
pub enum ShouldBreak {
    Yes,
    No,
}

/// Where, if anywhere, a document holds an inline comment.
#[derive(Clone, Copy, Debug, PartialEq, Eq, Structural)]
pub enum InlineCommentPosition {
    No,
    Middle,
    End,
}

/// The properties that most documents carry: the inline comment position and
/// the reference number of the document (0 for documents that are not observed).
#[derive(Clone, Copy, Debug, PartialEq, Eq, Structural)]
pub struct CommonProperties(pub InlineCommentPosition, pub usize);

/// The grouped document and whether the group must break.
#[derive(Debug, PartialEq)]
pub struct GroupDocProperties<'a>(pub Rc<Doc<'a>>, pub ShouldBreak);

#[derive(Debug, PartialEq)]
pub enum Doc<'a> {
    Nil,
    Cons(Rc<Doc<'a>>, Rc<Doc<'a>>, CommonProperties),
    /// A text, its width, and its properties.
    Text(&'a str, usize, CommonProperties),
    Nest(i32, Rc<Doc<'a>>, CommonProperties),
    /// Nests only when the observed document (by reference number) breaks.
    NestIfBreak(i32, Rc<Doc<'a>>, CommonProperties, usize),
    NestHanging(Rc<Doc<'a>>, CommonProperties),
    /// A line break, laid out as the given text when the group fits.
    Break(&'a str),
    Group(GroupDocProperties<'a>, CommonProperties),
}

/// The inline comment position recorded in a document.
pub open spec fn spec_inline_position<'a>(doc: Doc<'a>) -> InlineCommentPosition {
    match doc {
        Doc::Nil => InlineCommentPosition::No,
        Doc::Cons(_, _, p) => p.0,
        Doc::Text(_, _, p) => p.0,
        Doc::Nest(_, _, p) => p.0,
        Doc::NestIfBreak(_, _, p, _) => p.0,
        Doc::NestHanging(_, p) => p.0,
        Doc::Break(_) => InlineCommentPosition::No,
        Doc::Group(_, p) => p.0,
    }
}

/// The position of the inline comment of two documents laid one after the other.
pub open spec fn combined_position(
    left: InlineCommentPosition,
    right: InlineCommentPosition,
) -> InlineCommentPosition {
    if right == InlineCommentPosition::End {
        InlineCommentPosition::End
    } else if left == InlineCommentPosition::No && right == InlineCommentPosition::No {
        InlineCommentPosition::No
    } else {
        InlineCommentPosition::Middle
    }
}

pub open spec fn spec_cons<'a>(left: Doc<'a>, right: Doc<'a>) -> Doc<'a> {
    Doc::Cons(
        Rc::new(left),
        Rc::new(right),
        CommonProperties(
            combined_position(spec_inline_position(left), spec_inline_position(right)),
            0,
        ),
    )
}

pub open spec fn spec_group<'a>(doc: Doc<'a>, should_break: ShouldBreak, doc_ref: usize) -> Doc<'a> {
    Doc::Group(
        GroupDocProperties(Rc::new(doc), should_break),
        CommonProperties(spec_inline_position(doc), doc_ref),
    )
}

pub open spec fn spec_nest<'a>(doc: Doc<'a>, indent: i32) -> Doc<'a> {
    Doc::Nest(indent, Rc::new(doc), CommonProperties(spec_inline_position(doc), 0))
}

pub open spec fn spec_nest_if_break<'a>(doc: Doc<'a>, indent: i32, observed: usize) -> Doc<'a> {
    Doc::NestIfBreak(
        indent,
        Rc::new(doc),
        CommonProperties(spec_inline_position(doc), 0),
        observed,
    )
}

pub open spec fn spec_nest_hanging<'a>(doc: Doc<'a>) -> Doc<'a> {
    Doc::NestHanging(Rc::new(doc), CommonProperties(spec_inline_position(doc), 0))
}

/// A text of the given width with the given inline comment position.
pub open spec fn spec_text<'a>(txt: &'a str, size: usize, position: InlineCommentPosition) -> Doc<'a> {
    Doc::Text(txt, size, CommonProperties(position, 0))
}

/// The width of a text: its length in bytes.
pub open spec fn text_width(txt: &str) -> usize {
    txt.len()
}

/// A text whose width is its own length.
pub open spec fn spec_plain_text<'a>(txt: &'a str) -> Doc<'a> {
    spec_text(txt, text_width(txt), InlineCommentPosition::No)
}

/// Makes a second handle on a shared document.
///
/// Calls `Rc::clone`, which gives a pointer to the same allocation: the
/// contract claims that the result denotes the same document.
#[verifier::external_body]
pub fn share<'a>(doc: &Rc<Doc<'a>>) -> (res: Rc<Doc<'a>>)
    ensures
        *res == **doc,
{
    Rc::clone(doc)
}

pub fn query_inline_position<'a>(doc: &Doc<'a>) -> (res: InlineCommentPosition)
    ensures
        res == spec_inline_position(*doc),
{
    match doc {
        Doc::Nil => InlineCommentPosition::No,
        Doc::Cons(_, _, p) => p.0,
        Doc::Text(_, _, p) => p.0,
        Doc::Nest(_, _, p) => p.0,
        Doc::NestIfBreak(_, _, p, _) => p.0,
        Doc::NestHanging(_, p) => p.0,
        Doc::Break(_) => InlineCommentPosition::No,
        Doc::Group(_, p) => p.0,
    }
}

fn combine_positions(
    left: InlineCommentPosition,
    right: InlineCommentPosition,
) -> (res: InlineCommentPosition)
    ensures
        res == combined_position(left, right),
{
    match (left, right) {
        (_, InlineCommentPosition::End) => InlineCommentPosition::End,
        (InlineCommentPosition::No, InlineCommentPosition::No) => InlineCommentPosition::No,
        _ => InlineCommentPosition::Middle,
    }
}

/// The empty document.
pub fn nil<'a>() -> (res: Rc<Doc<'a>>)
    ensures
        *res == Doc::<'a>::Nil,
{
    Rc::new(Doc::Nil)
}

/// The first document followed by the second.
pub fn cons<'a>(left: Rc<Doc<'a>>, right: Rc<Doc<'a>>) -> (res: Rc<Doc<'a>>)
    ensures
        *res == spec_cons(*left, *right),
{
    let position = combine_positions(query_inline_position(&left), query_inline_position(&right));
    Rc::new(Doc::Cons(left, right, CommonProperties(position, 0)))
}

/// Wraps a document in a group that takes the next reference number.
pub fn to_group<'a>(doc: Rc<Doc<'a>>, should_break: ShouldBreak, doc_ref: &mut usize) -> (res: Rc<
    Doc<'a>,
>)
    requires
        *old(doc_ref) < usize::MAX,
    ensures
        *final(doc_ref) == *old(doc_ref) + 1,
        *res == spec_group(*doc, should_break, *final(doc_ref)),
{
    *doc_ref = *doc_ref + 1;
    group_with_ref(doc, should_break, *doc_ref)
}

/// Wraps a document in a group with the given reference number.
pub fn group_with_ref<'a>(doc: Rc<Doc<'a>>, should_break: ShouldBreak, doc_ref: usize) -> (res: Rc<
    Doc<'a>,
>)
    ensures
        *res == spec_group(*doc, should_break, doc_ref),
{
    let position = query_inline_position(&doc);
    Rc::new(Doc::Group(GroupDocProperties(doc, should_break), CommonProperties(position, doc_ref)))
}

pub fn nest<'a>(doc: Rc<Doc<'a>>, indent: i32) -> (res: Rc<Doc<'a>>)
    ensures
        *res == spec_nest(*doc, indent),
{
    let position = query_inline_position(&doc);
    Rc::new(Doc::Nest(indent, doc, CommonProperties(position, 0)))
}

pub fn nest_if_break<'a>(doc: Rc<Doc<'a>>, indent: i32, observed: usize) -> (res: Rc<Doc<'a>>)
    ensures
        *res == spec_nest_if_break(*doc, indent, observed),
{
    let position = query_inline_position(&doc);
    Rc::new(Doc::NestIfBreak(indent, doc, CommonProperties(position, 0), observed))
}

pub fn nest_hanging<'a>(doc: Rc<Doc<'a>>) -> (res: Rc<Doc<'a>>)
    ensures
        *res == spec_nest_hanging(*doc),
{
    let position = query_inline_position(&doc);
    Rc::new(Doc::NestHanging(doc, CommonProperties(position, 0)))
}

/// A break laid out as `txt` when it does not break.
pub fn nl<'a>(txt: &'a str) -> (res: Rc<Doc<'a>>)
    ensures
        *res == Doc::Break(txt),
{
    Rc::new(Doc::Break(txt))
}

/// A text whose width is its length in bytes.
pub fn text<'a>(txt: &'a str) -> (res: Rc<Doc<'a>>)
    ensures
        *res == spec_plain_text(txt),
{
    Rc::new(Doc::Text(txt, txt.len(), CommonProperties(InlineCommentPosition::No, 0)))
}

/// A text with the given width and inline comment position.
pub fn text_sized<'a>(txt: &'a str, size: usize, position: InlineCommentPosition) -> (res: Rc<
    Doc<'a>,
>)
    ensures
        *res == spec_text(txt, size, position),
{
    Rc::new(Doc::Text(txt, size, CommonProperties(position, 0)))
}

} // verus!
