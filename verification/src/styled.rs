//! Styled text: lines made of spans, each with its own style.
//!
//! The text type is `cursive`'s `StyledString`. What this library needs to say
//! of one is which spans it holds, and whether each is set in bold.

use cursive::theme::Effect;
use cursive::utils::markup::StyledString;
use vstd::prelude::*;

verus! {

/// `cursive`'s style of a span: its colors and effects.
#[verifier::external_type_specification]
#[verifier::external_body]
pub struct ExStyle(cursive::theme::Style);

/// `cursive`'s string with spans, of which `StyledString` is the one with
/// styles.
#[verifier::external_type_specification]
#[verifier::external_body]
#[verifier::reject_recursive_types(T)]
pub struct ExSpannedString<T>(cursive::utils::span::SpannedString<T>);

/// The spans of `text`, in order: the characters of each, and whether the span
/// asks for bold.
pub uninterp spec fn styled_spans(text: StyledString) -> Seq<(Seq<char>, bool)>;

/// `SpannedString::new`: a text without any span.
#[verifier::external_body]
pub(crate) fn styled_empty() -> (text: StyledString)
    ensures
        styled_spans(text) == Seq::<(Seq<char>, bool)>::empty(),
{
    StyledString::new()
}

/// `StyledString::plain`: a text of one span that holds `content` and asks for
/// no effect.
#[verifier::external_body]
pub(crate) fn styled_plain(content: &str) -> (text: StyledString)
    ensures
        styled_spans(text) == seq![(content@, false)],
{
    StyledString::plain(content)
}

/// `SpannedString::append`: the spans of `more` are added after those of
/// `text`, each as it was.
#[verifier::external_body]
pub(crate) fn styled_append(text: &mut StyledString, more: StyledString)
    ensures
        styled_spans(*final(text)) == styled_spans(*old(text)) + styled_spans(more),
{
    text.append(more);
}

/// `Clone` for `SpannedString`: a text with the same spans.
#[verifier::external_body]
pub(crate) fn styled_clone(text: &StyledString) -> (copy: StyledString)
    ensures
        styled_spans(copy) == styled_spans(*text),
{
    text.clone()
}

/// `SpannedString::spans_raw_attr_mut` with `Effects::insert`: every span keeps
/// its characters and asks for bold.
#[verifier::external_body]
pub(crate) fn styled_bold(text: StyledString) -> (bold: StyledString)
    ensures
        styled_spans(bold) == styled_spans(text).map_values(|span: (Seq<char>, bool)| (span.0, true)),
{
    let mut text = text;
    for span in text.spans_raw_attr_mut() {
        span.attr.effects.insert(Effect::Bold);
    }
    text
}

/// Adds one plain span that holds `content` after the spans of `text`.
pub(crate) fn styled_append_plain(text: &mut StyledString, content: &str)
    ensures
        styled_spans(*final(text)) == styled_spans(*old(text)).push((content@, false)),
{
    let more = styled_plain(content);
    styled_append(text, more);
    assert(styled_spans(*text) =~= styled_spans(*old(text)).push((content@, false)));
}

} // verus!
