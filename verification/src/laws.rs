//! The laws of the transform, each stated over the event-stream model and
//! proved once and for all: what a delimiter-free document keeps, what an
//! extraction produces, what an unterminated region loses, and how the
//! field mapping treats malformed lines and repeated keys.

use vstd::prelude::*;

use crate::events::SpecEvent;
use crate::fields::colon_line_count;
use crate::fields::distinct_keys;
use crate::fields::fields_of;
use crate::fields::insert_entry;
use crate::fields::has_key;
use crate::fields::lemma_fields_of_keys;
use crate::fields::lemma_insert_len;
use crate::fields::lemma_insert_lookup;
use crate::fields::line_key;
use crate::fields::lookup;
use crate::fields::parse_line;
use crate::table::row_text;
use crate::table::table_events;
use crate::table::table_rows;
use crate::transform::delimiter_free;
use crate::transform::run_events;
use crate::transform::text_events;
use crate::transform::transform_spec;

verus! {

proof fn lemma_run_passthrough(
    events: Seq<SpecEvent>,
    delim: Seq<char>,
    pending: Seq<Seq<char>>,
    out: Seq<SpecEvent>,
)
    requires
        delimiter_free(events, delim),
    ensures
        run_events(events, delim, false, pending, out) == out + events,
    decreases events.len(),
{
    if events.len() == 0 {
        assert(out + events =~= out);
    } else {
        let rest = events.drop_first();
        assert(events[0] != SpecEvent::Text(delim));
        assert(forall|i: int| 0 <= i < rest.len() ==> rest[i] == events[i + 1]);
        lemma_run_passthrough(rest, delim, pending, out.push(events[0]));
        assert(out.push(events[0]) + rest =~= out + events);
    }
}

proof fn lemma_run_capturing_drops(
    events: Seq<SpecEvent>,
    delim: Seq<char>,
    pending: Seq<Seq<char>>,
    out: Seq<SpecEvent>,
)
    requires
        delimiter_free(events, delim),
    ensures
        run_events(events, delim, true, pending, out) == out,
    decreases events.len(),
{
    if events.len() > 0 {
        let rest = events.drop_first();
        assert(events[0] != SpecEvent::Text(delim));
        assert(forall|i: int| 0 <= i < rest.len() ==> rest[i] == events[i + 1]);
        match events[0] {
            SpecEvent::Text(t) => {
                lemma_run_capturing_drops(rest, delim, pending.push(t), out);
            },
            _ => {
                lemma_run_capturing_drops(rest, delim, pending, out);
            },
        }
    }
}

proof fn lemma_run_prefix(
    prefix: Seq<SpecEvent>,
    rest: Seq<SpecEvent>,
    delim: Seq<char>,
    pending: Seq<Seq<char>>,
    out: Seq<SpecEvent>,
)
    requires
        delimiter_free(prefix, delim),
    ensures
        run_events(prefix + rest, delim, false, pending, out) == run_events(
            rest,
            delim,
            false,
            pending,
            out + prefix,
        ),
    decreases prefix.len(),
{
    if prefix.len() == 0 {
        assert(prefix + rest =~= rest);
        assert(out + prefix =~= out);
    } else {
        let all = prefix + rest;
        assert(all[0] == prefix[0]);
        assert(all.drop_first() =~= prefix.drop_first() + rest);
        assert(forall|i: int|
            0 <= i < prefix.drop_first().len() ==> prefix.drop_first()[i] == prefix[i + 1]);
        lemma_run_prefix(prefix.drop_first(), rest, delim, pending, out.push(prefix[0]));
        assert(out.push(prefix[0]) + prefix.drop_first() =~= out + prefix);
    }
}

proof fn lemma_run_captures_lines(
    lines: Seq<Seq<char>>,
    rest: Seq<SpecEvent>,
    delim: Seq<char>,
    pending: Seq<Seq<char>>,
    out: Seq<SpecEvent>,
)
    requires
        forall|i: int| 0 <= i < lines.len() ==> lines[i] != delim,
    ensures
        run_events(text_events(lines) + rest, delim, true, pending, out) == run_events(
            rest,
            delim,
            true,
            pending + lines,
            out,
        ),
    decreases lines.len(),
{
    if lines.len() == 0 {
        assert(text_events(lines) + rest =~= rest);
        assert(pending + lines =~= pending);
    } else {
        let all = text_events(lines) + rest;
        assert(all[0] == SpecEvent::Text(lines[0]));
        assert(all.drop_first() =~= text_events(lines.drop_first()) + rest);
        assert(forall|i: int|
            0 <= i < lines.drop_first().len() ==> lines.drop_first()[i] == lines[i + 1]);
        lemma_run_captures_lines(lines.drop_first(), rest, delim, pending.push(lines[0]), out);
        assert(pending.push(lines[0]) + lines.drop_first() =~= pending + lines);
    }
}

/// No-op law: a document whose event stream holds no text run equal to the
/// delimiter is left unchanged by the transform.
pub proof fn lemma_no_delimiter_no_change(events: Seq<SpecEvent>, delim: Seq<char>)
    requires
        delimiter_free(events, delim),
    ensures
        transform_spec(events, delim) == events,
{
    lemma_run_passthrough(events, delim, Seq::empty(), Seq::empty());
    assert(Seq::<SpecEvent>::empty() + events =~= events);
}

proof fn lemma_run_accumulator(
    events: Seq<SpecEvent>,
    delim: Seq<char>,
    capturing: bool,
    pending: Seq<Seq<char>>,
    out: Seq<SpecEvent>,
)
    ensures
        run_events(events, delim, capturing, pending, out) == out + run_events(
            events,
            delim,
            capturing,
            pending,
            Seq::<SpecEvent>::empty(),
        ),
    decreases events.len(),
{
    let none = Seq::<SpecEvent>::empty();
    if events.len() == 0 {
        assert(out + none =~= out);
    } else {
        let rest = events.drop_first();
        match events[0] {
            SpecEvent::Text(t) => {
                if t == delim {
                    if capturing {
                        let table = table_events(fields_of(pending));
                        lemma_run_accumulator(rest, delim, false, Seq::empty(), out + table);
                        lemma_run_accumulator(rest, delim, false, Seq::empty(), none + table);
                        let r = run_events(rest, delim, false, Seq::empty(), none);
                        assert((out + table) + r =~= out + ((none + table) + r));
                    } else {
                        lemma_run_accumulator(rest, delim, true, pending, out);
                    }
                } else if capturing {
                    lemma_run_accumulator(rest, delim, true, pending.push(t), out);
                } else {
                    lemma_run_accumulator(rest, delim, false, pending, out.push(events[0]));
                    lemma_run_accumulator(rest, delim, false, pending, none.push(events[0]));
                    let r = run_events(rest, delim, false, pending, none);
                    assert(out.push(events[0]) + r =~= out + (none.push(events[0]) + r));
                }
            },
            _ => {
                if capturing {
                    lemma_run_accumulator(rest, delim, true, pending, out);
                } else {
                    lemma_run_accumulator(rest, delim, false, pending, out.push(events[0]));
                    lemma_run_accumulator(rest, delim, false, pending, none.push(events[0]));
                    let r = run_events(rest, delim, false, pending, none);
                    assert(out.push(events[0]) + r =~= out + (none.push(events[0]) + r));
                }
            },
        }
    }
}

/// Region-composition law: the transform works region by region. A stream
/// that starts with delimiter-free events, one paired region, and then any
/// remaining stream is transformed into the leading events, the rendered
/// table of the region's lines, and the transform of the remainder —
/// applied repeatedly, this fixes a document with any number of paired
/// regions.
pub proof fn lemma_region_by_region(
    before: Seq<SpecEvent>,
    lines: Seq<Seq<char>>,
    rest: Seq<SpecEvent>,
    delim: Seq<char>,
)
    requires
        delimiter_free(before, delim),
        forall|i: int| 0 <= i < lines.len() ==> lines[i] != delim,
    ensures
        transform_spec(
            before + seq![SpecEvent::Text(delim)] + text_events(lines)
                + seq![SpecEvent::Text(delim)] + rest,
            delim,
        ) == before + table_events(fields_of(lines)) + transform_spec(rest, delim),
{
    let open_rest = seq![SpecEvent::Text(delim)] + (text_events(lines) + (seq![
        SpecEvent::Text(delim),
    ] + rest));
    let whole = before + seq![SpecEvent::Text(delim)] + text_events(lines) + seq![
        SpecEvent::Text(delim),
    ] + rest;
    assert(whole =~= before + open_rest);
    lemma_run_prefix(before, open_rest, delim, Seq::empty(), Seq::empty());
    assert(Seq::<SpecEvent>::empty() + before =~= before);
    assert(open_rest[0] == SpecEvent::Text(delim));
    assert(open_rest.drop_first() =~= text_events(lines) + (seq![SpecEvent::Text(delim)] + rest));
    lemma_run_captures_lines(
        lines,
        seq![SpecEvent::Text(delim)] + rest,
        delim,
        Seq::empty(),
        before,
    );
    assert(Seq::<Seq<char>>::empty() + lines =~= lines);
    let close_rest = seq![SpecEvent::Text(delim)] + rest;
    assert(close_rest[0] == SpecEvent::Text(delim));
    assert(close_rest.drop_first() =~= rest);
    let table = table_events(fields_of(lines));
    lemma_run_accumulator(rest, delim, false, Seq::empty(), before + table);
    assert((before + table) + transform_spec(rest, delim) =~= before + table + transform_spec(
        rest,
        delim,
    ));
}

/// Extraction law: a stream made of delimiter-free events, a delimiter, a
/// run of captured text lines, a delimiter, and further delimiter-free
/// events is transformed into the surrounding events with the rendered
/// table of the lines' field mapping spliced where the region stood.
pub proof fn lemma_extraction(
    before: Seq<SpecEvent>,
    lines: Seq<Seq<char>>,
    after: Seq<SpecEvent>,
    delim: Seq<char>,
)
    requires
        delimiter_free(before, delim),
        forall|i: int| 0 <= i < lines.len() ==> lines[i] != delim,
        delimiter_free(after, delim),
    ensures
        transform_spec(
            before + seq![SpecEvent::Text(delim)] + text_events(lines)
                + seq![SpecEvent::Text(delim)] + after,
            delim,
        ) == before + table_events(fields_of(lines)) + after,
{
    lemma_region_by_region(before, lines, after, delim);
    lemma_no_delimiter_no_change(after, delim);
}

/// Unterminated-region law: when a lone opening delimiter is never closed,
/// the transform keeps what stood before it, drops the delimiter and
/// everything after it, and inserts no table.
pub proof fn lemma_unterminated_region_truncates(
    before: Seq<SpecEvent>,
    tail: Seq<SpecEvent>,
    delim: Seq<char>,
)
    requires
        delimiter_free(before, delim),
        delimiter_free(tail, delim),
    ensures
        transform_spec(before + seq![SpecEvent::Text(delim)] + tail, delim) == before,
{
    let open_rest = seq![SpecEvent::Text(delim)] + tail;
    assert(before + seq![SpecEvent::Text(delim)] + tail =~= before + open_rest);
    lemma_run_prefix(before, open_rest, delim, Seq::empty(), Seq::empty());
    assert(Seq::<SpecEvent>::empty() + before =~= before);
    assert(open_rest[0] == SpecEvent::Text(delim));
    assert(open_rest.drop_first() =~= tail);
    lemma_run_capturing_drops(tail, delim, Seq::empty(), before);
}

proof fn lemma_table_events_delimiter_free(fields: Seq<(Seq<char>, Seq<char>)>, delim: Seq<char>)
    ensures
        delimiter_free(table_events(fields), delim),
{
    let te = table_events(fields);
    assert forall|j: int| 0 <= j < te.len() implies te[j] != SpecEvent::Text(delim) by {
        if 2 <= j < 2 + fields.len() {
            assert(te[j] == table_rows(fields)[j - 2]);
            assert(table_rows(fields)[j - 2] == SpecEvent::Html(
                row_text(fields[j - 2].0, fields[j - 2].1),
            ));
        }
    }
}

proof fn lemma_run_output_delimiter_free(
    events: Seq<SpecEvent>,
    delim: Seq<char>,
    capturing: bool,
    pending: Seq<Seq<char>>,
    out: Seq<SpecEvent>,
)
    requires
        delimiter_free(out, delim),
    ensures
        delimiter_free(run_events(events, delim, capturing, pending, out), delim),
    decreases events.len(),
{
    if events.len() > 0 {
        let rest = events.drop_first();
        match events[0] {
            SpecEvent::Text(t) => {
                if t == delim {
                    if capturing {
                        let table = table_events(fields_of(pending));
                        lemma_table_events_delimiter_free(fields_of(pending), delim);
                        assert(delimiter_free(out + table, delim));
                        lemma_run_output_delimiter_free(
                            rest,
                            delim,
                            false,
                            Seq::empty(),
                            out + table,
                        );
                    } else {
                        lemma_run_output_delimiter_free(rest, delim, true, pending, out);
                    }
                } else if capturing {
                    lemma_run_output_delimiter_free(rest, delim, true, pending.push(t), out);
                } else {
                    assert(delimiter_free(out.push(events[0]), delim));
                    lemma_run_output_delimiter_free(rest, delim, false, pending, out.push(
                        events[0],
                    ));
                }
            },
            _ => {
                if capturing {
                    lemma_run_output_delimiter_free(rest, delim, true, pending, out);
                } else {
                    assert(delimiter_free(out.push(events[0]), delim));
                    lemma_run_output_delimiter_free(rest, delim, false, pending, out.push(
                        events[0],
                    ));
                }
            },
        }
    }
}

/// Idempotence law: a transformed stream holds no delimiter event, so
/// transforming it again changes nothing.
pub proof fn lemma_transform_idempotent(events: Seq<SpecEvent>, delim: Seq<char>)
    ensures
        delimiter_free(transform_spec(events, delim), delim),
        transform_spec(transform_spec(events, delim), delim) == transform_spec(events, delim),
{
    lemma_run_output_delimiter_free(events, delim, false, Seq::empty(), Seq::empty());
    lemma_no_delimiter_no_change(transform_spec(events, delim), delim);
}

/// Delimiter-configurability law: only text runs equal to the configured
/// token are recognized as boundaries, so a document that carries some
/// other token as plain prose is left untouched when the configured token
/// differs from it.
pub proof fn lemma_foreign_token_untouched(
    events: Seq<SpecEvent>,
    prose: Seq<char>,
    delim: Seq<char>,
)
    requires
        prose != delim,
        exists|i: int| 0 <= i < events.len() && events[i] == SpecEvent::Text(prose),
        delimiter_free(events, delim),
    ensures
        transform_spec(events, delim) == events,
{
    lemma_no_delimiter_no_change(events, delim);
}

/// Malformed-line law: a captured line without a colon contributes nothing
/// to the field mapping.
pub proof fn lemma_malformed_line_ignored(lines: Seq<Seq<char>>, line: Seq<char>)
    requires
        parse_line(line) is None,
    ensures
        fields_of(lines.push(line)) == fields_of(lines),
{
    assert(lines.push(line).drop_last() =~= lines);
    assert(lines.push(line).last() == line);
}

/// Mapping-size law: when no two colon-containing lines share a key, the
/// mapping holds exactly one entry per colon-containing line, and none for
/// the others.
pub proof fn lemma_mapping_counts_colon_lines(lines: Seq<Seq<char>>)
    requires
        distinct_keys(lines),
    ensures
        fields_of(lines).len() == colon_line_count(lines),
    decreases lines.len(),
{
    if lines.len() > 0 {
        let prev = lines.drop_last();
        let n = lines.len() - 1;
        assert(forall|i: int| 0 <= i < prev.len() ==> prev[i] == lines[i]);
        assert(distinct_keys(prev));
        lemma_mapping_counts_colon_lines(prev);
        match parse_line(lines.last()) {
            Some(kv) => {
                lemma_fields_of_keys(prev, kv.0);
                if has_key(fields_of(prev), kv.0) {
                    let i = choose|i: int|
                        0 <= i < prev.len() && parse_line(prev[i]) is Some && line_key(prev[i])
                            == kv.0;
                    assert(parse_line(lines[i]) is Some && line_key(lines[i]) == kv.0);
                    assert(line_key(lines[n]) == kv.0);
                    assert(false);
                }
                lemma_insert_len(fields_of(prev), kv.0, kv.1);
            },
            None => {},
        }
    }
}

/// Duplicate-key law: storing a line for a key makes that line's value the
/// mapping's value for the key, whatever was stored before.
pub proof fn lemma_last_write_wins(lines: Seq<Seq<char>>, line: Seq<char>, k: Seq<char>, v: Seq<char>)
    requires
        parse_line(line) == Some((k, v)),
    ensures
        lookup(fields_of(lines.push(line)), k) == Some(v),
{
    assert(lines.push(line).drop_last() =~= lines);
    assert(lines.push(line).last() == line);
    lemma_insert_lookup(fields_of(lines), k, v);
}

/// Duplicate-key law, two-line form: two captured lines sharing a key yield
/// exactly one entry, holding the later value.
pub proof fn lemma_duplicate_key(
    l1: Seq<char>,
    l2: Seq<char>,
    k: Seq<char>,
    v1: Seq<char>,
    v2: Seq<char>,
)
    requires
        parse_line(l1) == Some((k, v1)),
        parse_line(l2) == Some((k, v2)),
    ensures
        fields_of(seq![l1, l2]) == seq![(k, v2)],
{
    let two = seq![l1, l2];
    assert(two.drop_last() =~= seq![l1]);
    assert(two.last() == l2);
    let one = seq![l1];
    assert(one.drop_last() =~= Seq::<Seq<char>>::empty());
    assert(one.last() == l1);
    assert(fields_of(Seq::<Seq<char>>::empty()) == Seq::<(Seq<char>, Seq<char>)>::empty());
    assert(fields_of(one) == insert_entry(Seq::<(Seq<char>, Seq<char>)>::empty(), k, v1));
    assert(fields_of(one) =~= seq![(k, v1)]);
    assert(fields_of(two) == insert_entry(fields_of(one), k, v2));
    assert(fields_of(one)[0].0 == k);
    assert(fields_of(two) =~= seq![(k, v2)] + fields_of(one).drop_first());
    assert(fields_of(two) =~= seq![(k, v2)]);
}

} // verus!
