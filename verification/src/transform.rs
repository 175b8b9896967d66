//! The frontmatter transform: one linear walk over a document's structural
//! events that consumes a paired delimiter region, parses its field lines,
//! and splices the rendered table in its place.

use vstd::prelude::*;
use vstd::string::StringExecFns;

use crate::events::MdEvent;
use crate::events::SpecEvent;
use crate::events::TransformError;
use crate::events::model;
use crate::events::models;
use crate::events::parse_markdown_events;
use crate::events::parsed_events;
use crate::events::rendered_markdown;
use crate::events::serialization_ok;
use crate::events::serialize_markdown_events;
use crate::fields::fields_of;
use crate::fields::line_views;
use crate::fields::parse_frontmatter;
use crate::table::create_html_table_events;
use crate::table::table_events;

verus! {

/// The walk over the remaining events, with the walk's state: whether a
/// region is open (`capturing`), the field lines captured so far, and the
/// output events emitted so far.
///
/// A text run equal to the delimiter toggles the region and is consumed.
/// Closing a region appends the rendered table of its captured lines.
/// Inside a region, text runs are captured as field lines and every other
/// event is dropped; outside, every event passes through unchanged.
pub open spec fn run_events(
    events: Seq<SpecEvent>,
    delim: Seq<char>,
    capturing: bool,
    pending: Seq<Seq<char>>,
    out: Seq<SpecEvent>,
) -> Seq<SpecEvent>
    decreases events.len(),
{
    if events.len() == 0 {
        out
    } else {
        let rest = events.drop_first();
        match events[0] {
            SpecEvent::Text(t) => {
                if t == delim {
                    if capturing {
                        run_events(
                            rest,
                            delim,
                            false,
                            Seq::empty(),
                            out + table_events(fields_of(pending)),
                        )
                    } else {
                        run_events(rest, delim, true, pending, out)
                    }
                } else if capturing {
                    run_events(rest, delim, true, pending.push(t), out)
                } else {
                    run_events(rest, delim, false, pending, out.push(events[0]))
                }
            },
            _ => {
                if capturing {
                    run_events(rest, delim, true, pending, out)
                } else {
                    run_events(rest, delim, false, pending, out.push(events[0]))
                }
            },
        }
    }
}

/// The transformed event stream of a document: the walk started outside any
/// region, with nothing captured and nothing emitted.
pub open spec fn transform_spec(events: Seq<SpecEvent>, delim: Seq<char>) -> Seq<SpecEvent> {
    run_events(events, delim, false, Seq::empty(), Seq::empty())
}

/// Whether no event of the stream is a text run equal to the delimiter.
pub open spec fn delimiter_free(events: Seq<SpecEvent>, delim: Seq<char>) -> bool {
    forall|i: int| 0 <= i < events.len() ==> events[i] != SpecEvent::Text(delim)
}

/// The text-run events of a sequence of captured lines, in order.
pub open spec fn text_events(lines: Seq<Seq<char>>) -> Seq<SpecEvent> {
    lines.map_values(|l: Seq<char>| SpecEvent::Text(l))
}

/// Walks the event stream once and returns the transformed stream: a paired
/// delimiter region is replaced by the rendered table of its field lines,
/// everything outside a region passes through unchanged, and an unmatched
/// opening delimiter silently drops the remainder of the stream.
pub fn transform_events(events: Vec<MdEvent>, delimiter: &String) -> (out: Vec<MdEvent>)
    ensures
        models(out@) == transform_spec(models(events@), delimiter@),
{
    let ghost orig = models(events@);
    let mut evs = events;
    let mut capturing = false;
    let mut pending: Vec<String> = Vec::new();
    let mut out: Vec<MdEvent> = Vec::new();
    proof {
        assert(line_views(pending@) =~= Seq::<Seq<char>>::empty());
        assert(models(out@) =~= Seq::<SpecEvent>::empty());
    }
    while evs.len() > 0
        invariant
            run_events(models(evs@), delimiter@, capturing, line_views(pending@), models(out@))
                == transform_spec(orig, delimiter@),
        decreases evs@.len(),
    {
        let ghost evs0 = models(evs@);
        let ghost pending0 = line_views(pending@);
        let ghost out0 = models(out@);
        let e = evs.remove(0);
        proof {
            assert(models(evs@) =~= evs0.drop_first());
            assert(model(e) == evs0[0]);
        }
        match e {
            MdEvent::Text(t) => {
                if t == *delimiter {
                    if capturing {
                        let fields = parse_frontmatter(&pending);
                        let mut block = create_html_table_events(&fields);
                        out.append(&mut block);
                        pending.clear();
                        capturing = false;
                        proof {
                            assert(models(out@) =~= out0 + table_events(fields_of(pending0)));
                            assert(line_views(pending@) =~= Seq::<Seq<char>>::empty());
                        }
                    } else {
                        capturing = true;
                    }
                } else if capturing {
                    pending.push(t);
                    proof {
                        assert(line_views(pending@) =~= pending0.push(t@));
                    }
                } else {
                    out.push(MdEvent::Text(t));
                    proof {
                        assert(models(out@) =~= out0.push(evs0[0]));
                    }
                }
            },
            other => {
                if !capturing {
                    out.push(other);
                    proof {
                        assert(models(out@) =~= out0.push(evs0[0]));
                    }
                }
            },
        }
    }
    proof {
        assert(models(evs@).len() == 0);
    }
    out
}

/// The delimiter token recognized when none is configured.
pub open spec fn default_delimiter() -> Seq<char> {
    "+++"@
}

/// The delimiter token to use: the configured one where the configuration
/// holds a string, and `+++` otherwise.
pub fn effective_delimiter(configured: Option<String>) -> (r: String)
    ensures
        match configured {
            Some(s) => r@ == s@,
            None => r@ == default_delimiter(),
        },
{
    match configured {
        Some(s) => s,
        None => String::from_str("+++"),
    }
}

/// Replaces the frontmatter region of one markdown document by a rendered
/// table.
pub struct FrontmatterPreprocessor;

impl FrontmatterPreprocessor {
    /// The name under which the preprocessor registers itself with a host.
    pub fn name(&self) -> (r: &'static str)
        ensures
            r@ == "frontmatter-preprocessor"@,
    {
        "frontmatter-preprocessor"
    }

    /// Transforms one document's markdown text: the text is parsed into its
    /// event stream, each delimiter-paired region is replaced by the
    /// rendered table of its field lines, and the stream is serialized back
    /// into markdown text. A document without a paired region keeps its
    /// events unchanged, up to the serialization round trip; a document
    /// whose last opening delimiter is never closed loses the events after
    /// it. The transform succeeds exactly when the serializer accepts the
    /// transformed stream, and only a serializer failure is an error.
    pub fn transform(&self, content: &str, delimiter: &str) -> (r: Result<
        String,
        TransformError,
    >)
        ensures
            r is Ok <==> serialization_ok(
                transform_spec(parsed_events(content@), delimiter@),
            ),
            r matches Ok(out) ==> out@ == rendered_markdown(
                transform_spec(parsed_events(content@), delimiter@),
            ),
            r matches Err(e) ==> e == TransformError::Serialization,
    {
        let events = parse_markdown_events(content);
        let delim = delimiter.to_owned();
        let transformed = transform_events(events, &delim);
        serialize_markdown_events(transformed)
    }
}

impl Default for FrontmatterPreprocessor {
    /// A fresh preprocessor; it carries no state.
    fn default() -> (r: Self)
        ensures
            r == (FrontmatterPreprocessor {  }),
    {
        FrontmatterPreprocessor
    }
}

} // verus!
