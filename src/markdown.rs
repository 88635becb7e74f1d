//! Markdown source to structural events, and to blocks.
use vstd::prelude::*;
use pulldown_cmark::{Event as MdEvent, Options, Parser, Tag as MdTag};
use crate::document::{Event, EventView, RootNode, Tag, build_document, build_spec, events_view, roots_view};

verus! {

/// The structural events that a CommonMark parser reports for a source text.
pub uninterp spec fn markdown_events(src: Seq<char>) -> Seq<EventView>;

/// Relies on pulldown_cmark::Parser with no extensions, and CowStr::into_string: the events,
/// in order, depend on the source text alone. The parser's panics are checks of its own
/// invariants: `scan_eol` is unwrapped only at a `\n` or `\r` byte, where it returns `Some`;
/// an `End` is built only for an item that was emitted as a `Start`, which is a container;
/// the tree cursor is unwrapped in `push` only right after a `Start` at a valid node.
#[verifier::external_body]
fn parse_events(src: &str) -> (r: Vec<Event>)
    ensures
        events_view(r@) == markdown_events(src@),
{
    let mut out = Vec::new();
    for e in Parser::new_ext(src, Options::empty()) {
        out.push(match e {
            MdEvent::Start(MdTag::Paragraph) => Event::Start(Tag::Paragraph),
            MdEvent::Start(MdTag::Header(level)) => Event::Start(Tag::Header(level)),
            MdEvent::Start(MdTag::Strong) => Event::Start(Tag::Strong),
            MdEvent::Start(MdTag::Emphasis) => Event::Start(Tag::Emphasis),
            MdEvent::Start(_) => Event::Start(Tag::Other),
            MdEvent::End(_) => Event::End,
            MdEvent::Text(t) => Event::Text(t.into_string()),
            _ => Event::Ignored,
        });
    }
    out
}

/// The blocks of a markdown document.
pub fn parse_document(src: &str) -> (r: Vec<RootNode>)
    ensures
        roots_view(r@) == build_spec(markdown_events(src@)),
{
    let events = parse_events(src);
    build_document(&events)
}

} // verus!
