//! The markdown events the readers act on, read from a document by
//! pulldown-cmark.
use pulldown_cmark::CodeBlockKind::Fenced;
use pulldown_cmark::Event::{Code, End, Start, Text};
use pulldown_cmark::{Parser, Tag, TagEnd};
use vstd::prelude::*;

verus! {

/// One parser event, reduced to what the readers distinguish.
#[derive(Debug, Clone, PartialEq, Eq)]
pub enum MdEvent {
    StartHeading(u8),
    EndHeading(u8),
    StartItem,
    EndItem,
    StartFence(String),
    EndCodeBlock,
    Text(String),
    Code(String),
    Other,
}

pub enum MdEventV {
    StartHeading(u8),
    EndHeading(u8),
    StartItem,
    EndItem,
    StartFence(Seq<char>),
    EndCodeBlock,
    Text(Seq<char>),
    Code(Seq<char>),
    Other,
}

/// An event and the byte offset in the document where its range starts.
#[derive(Debug, Clone, PartialEq, Eq)]
pub struct MdEventAt {
    pub event: MdEvent,
    pub offset: usize,
}

pub struct MdEventAtV {
    pub event: MdEventV,
    pub offset: usize,
}

impl View for MdEvent {
    type V = MdEventV;

    open spec fn view(&self) -> MdEventV {
        match self {
            MdEvent::StartHeading(l) => MdEventV::StartHeading(*l),
            MdEvent::EndHeading(l) => MdEventV::EndHeading(*l),
            MdEvent::StartItem => MdEventV::StartItem,
            MdEvent::EndItem => MdEventV::EndItem,
            MdEvent::StartFence(s) => MdEventV::StartFence(s@),
            MdEvent::EndCodeBlock => MdEventV::EndCodeBlock,
            MdEvent::Text(s) => MdEventV::Text(s@),
            MdEvent::Code(s) => MdEventV::Code(s@),
            MdEvent::Other => MdEventV::Other,
        }
    }
}

impl View for MdEventAt {
    type V = MdEventAtV;

    open spec fn view(&self) -> MdEventAtV {
        MdEventAtV { event: self.event@, offset: self.offset }
    }
}

impl DeepView for MdEventAt {
    type V = MdEventAtV;

    open spec fn deep_view(&self) -> MdEventAtV {
        self@
    }
}

/// The events pulldown-cmark reads from a document, with their offsets.
pub uninterp spec fn markdown_events(source: Seq<char>) -> Seq<MdEventAtV>;

/// Runs `pulldown_cmark::Parser::new(source).into_offset_iter()` and keeps,
/// for each event, what the readers distinguish and where its range starts.
/// The events are named, not described; of them the contract states only
/// that a heading level is one of the six pulldown-cmark knows.
#[verifier::external_body]
pub(crate) fn read_events(source: &str) -> (events: Vec<MdEventAt>)
    ensures
        events.deep_view() == markdown_events(source@),
        forall|i: int|
            0 <= i < events.len() ==> match #[trigger] events@[i].event {
                MdEvent::StartHeading(l) => 1 <= l <= 6,
                MdEvent::EndHeading(l) => 1 <= l <= 6,
                _ => true,
            },
{
    let mut out = Vec::new();
    for (ev, r) in Parser::new(source).into_offset_iter() {
        out.push(MdEventAt { offset: r.start, event: match ev {
            Start(Tag::Heading { level, .. }) => MdEvent::StartHeading(level as u8),
            End(TagEnd::Heading(level)) => MdEvent::EndHeading(level as u8),
            Start(Tag::Item) => MdEvent::StartItem,
            End(TagEnd::Item) => MdEvent::EndItem,
            Start(Tag::CodeBlock(Fenced(l))) => MdEvent::StartFence(l.into()),
            End(TagEnd::CodeBlock) => MdEvent::EndCodeBlock,
            Text(s) => MdEvent::Text(s.into()),
            Code(s) => MdEvent::Code(s.into()),
            _ => MdEvent::Other,
        } });
    }
    out
}

} // verus!
