//! The structural events of a parsed markdown document, and the trusted
//! boundary to the markdown tokenizer and serializer.
//!
//! The transform only ever inspects the contents of plain text-run events;
//! every other event of the underlying parser is carried through opaquely.

use vstd::prelude::*;

use pulldown_cmark::Event;
use pulldown_cmark::Options;
use pulldown_cmark::Parser;
use pulldown_cmark::Tag;
use pulldown_cmark::TagEnd;
use pulldown_cmark_to_cmark::cmark;

verus! {

#[verifier::external_type_specification]
#[verifier::external_body]
pub struct ExEvent<'a>(Event<'a>);

/// One structural event of a markdown document, as the transform sees it.
///
/// `Text` is a plain text run, the only event the transform reads. `Html`,
/// `HtmlBlockStart` and `HtmlBlockEnd` make up the rendered table spliced
/// into the stream. `Other` carries any further event of the underlying
/// parser through unchanged.
#[derive(Debug, PartialEq)]
pub enum MdEvent {
    Text(String),
    Html(String),
    HtmlBlockStart,
    HtmlBlockEnd,
    Other(Event<'static>),
}

/// The mathematical form of one structural event: text contents as
/// character sequences, opaque events as themselves.
pub enum SpecEvent {
    Text(Seq<char>),
    Html(Seq<char>),
    HtmlBlockStart,
    HtmlBlockEnd,
    Other(Event<'static>),
}

/// The mathematical form of one owned event.
pub open spec fn model(e: MdEvent) -> SpecEvent {
    match e {
        MdEvent::Text(s) => SpecEvent::Text(s@),
        MdEvent::Html(s) => SpecEvent::Html(s@),
        MdEvent::HtmlBlockStart => SpecEvent::HtmlBlockStart,
        MdEvent::HtmlBlockEnd => SpecEvent::HtmlBlockEnd,
        MdEvent::Other(ev) => SpecEvent::Other(ev),
    }
}

/// The mathematical form of a sequence of owned events.
pub open spec fn models(s: Seq<MdEvent>) -> Seq<SpecEvent> {
    s.map_values(|e: MdEvent| model(e))
}

/// The event sequence that the markdown tokenizer derives from a document's
/// text; it depends on the text alone.
pub uninterp spec fn parsed_events(text: Seq<char>) -> Seq<SpecEvent>;

/// The markdown text that the serializer derives from an event sequence;
/// it depends on the events alone.
pub uninterp spec fn rendered_markdown(events: Seq<SpecEvent>) -> Seq<char>;

/// Whether the serializer accepts an event sequence; like the text it
/// produces, this depends on the events alone. An unbalanced stream — such
/// as one truncated by an unmatched opening delimiter — is refused.
pub uninterp spec fn serialization_ok(events: Seq<SpecEvent>) -> bool;

/// The errors of a transform: serialization of the output event stream
/// back into markdown text can fail, and nothing else can.
#[derive(Clone, Copy, Debug, PartialEq, Eq, Structural)]
pub enum TransformError {
    Serialization,
}

/// Relies on pulldown_cmark::Parser::new: parses markdown text into its
/// sequence of structural events, a function of the text alone. Text runs
/// are kept as owned strings; every other event is carried opaquely.
#[verifier::external_body]
pub fn parse_markdown_events(content: &str) -> (r: Vec<MdEvent>)
    ensures
        models(r@) == parsed_events(content@),
{
    Parser::new(content)
        .map(|ev| match ev {
            Event::Text(t) => MdEvent::Text(t.to_string()),
            other => MdEvent::Other(other.into_static()),
        })
        .collect()
}

/// Relies on pulldown_cmark_to_cmark::cmark: serializes an event sequence
/// back into markdown text. Both whether the serializer accepts the stream
/// and the text it produces are functions of the events alone (the output
/// is written to an in-memory string, which cannot fail); a serializer
/// failure is reported as the one error.
#[verifier::external_body]
pub fn serialize_markdown_events(events: Vec<MdEvent>) -> (r: Result<String, TransformError>)
    ensures
        r is Ok <==> serialization_ok(models(events@)),
        r matches Ok(s) ==> s@ == rendered_markdown(models(events@)),
        r matches Err(e) ==> e == TransformError::Serialization,
{
    let cm = events.into_iter().map(|e| match e {
        MdEvent::Text(s) => Event::Text(s.into()),
        MdEvent::Html(s) => Event::Html(s.into()),
        MdEvent::HtmlBlockStart => Event::Start(Tag::HtmlBlock),
        MdEvent::HtmlBlockEnd => Event::End(TagEnd::HtmlBlock),
        MdEvent::Other(ev) => ev,
    });
    let mut buf = String::new();
    match cmark(cm, &mut buf, Options::empty()) {
        Ok(_) => Ok(buf),
        Err(_) => Err(TransformError::Serialization),
    }
}

} // verus!
