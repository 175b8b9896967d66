//! Rendering of a field mapping as an HTML table block.
//!
//! The table is one opaque raw-markup block: an opening tag with a fixed
//! style class, one row per mapping entry with a header cell for the key
//! and a data cell for the value, and a closing tag. Keys and values are
//! inserted as raw text, without HTML escaping.

use vstd::prelude::*;
use vstd::string::StringExecFns;

use crate::events::MdEvent;
use crate::events::SpecEvent;
use crate::events::models;
use crate::fields::field_views;

verus! {

/// The opening line of the rendered table.
pub open spec fn table_open_text() -> Seq<char> {
    "<table class=\"preamble\">\n"@
}

/// The closing line of the rendered table.
pub open spec fn table_close_text() -> Seq<char> {
    "</table>\n"@
}

/// One rendered table row: a header cell holding the key, a data cell
/// holding the value.
pub open spec fn row_text(key: Seq<char>, value: Seq<char>) -> Seq<char> {
    "<tr><th>"@ + key + "</td><td>"@ + value + "</td></tr>\n"@
}

/// The row events of the rendered table, one per mapping entry, in the
/// mapping's order.
pub open spec fn table_rows(fields: Seq<(Seq<char>, Seq<char>)>) -> Seq<SpecEvent> {
    fields.map_values(|f: (Seq<char>, Seq<char>)| SpecEvent::Html(row_text(f.0, f.1)))
}

/// The whole rendered table block: start of a raw block, opening tag,
/// the rows, closing tag, end of the raw block.
pub open spec fn table_events(fields: Seq<(Seq<char>, Seq<char>)>) -> Seq<SpecEvent> {
    seq![SpecEvent::HtmlBlockStart, SpecEvent::Html(table_open_text())] + table_rows(fields)
        + seq![SpecEvent::Html(table_close_text()), SpecEvent::HtmlBlockEnd]
}

fn render_row(key: &String, value: &String) -> (r: String)
    ensures
        r@ == row_text(key@, value@),
{
    let mut row = String::from_str("<tr><th>");
    row.append(key.as_str());
    row.append("</td><td>");
    row.append(value.as_str());
    row.append("</td></tr>\n");
    row
}

/// Renders the field mapping as the event block of an HTML table, one row
/// per entry in the mapping's order.
pub fn create_html_table_events(fields: &Vec<(String, String)>) -> (r: Vec<MdEvent>)
    ensures
        models(r@) == table_events(field_views(fields@)),
{
    let mut out: Vec<MdEvent> = Vec::new();
    out.push(MdEvent::HtmlBlockStart);
    out.push(MdEvent::Html(String::from_str("<table class=\"preamble\">\n")));
    proof {
        assert(models(out@) =~= seq![
            SpecEvent::HtmlBlockStart,
            SpecEvent::Html(table_open_text()),
        ] + table_rows(field_views(fields@).subrange(0, 0)));
    }
    let mut i: usize = 0;
    while i < fields.len()
        invariant
            i <= fields@.len(),
            models(out@) == seq![SpecEvent::HtmlBlockStart, SpecEvent::Html(table_open_text())]
                + table_rows(field_views(fields@).subrange(0, i as int)),
        decreases fields@.len() - i,
    {
        let row = render_row(&fields[i].0, &fields[i].1);
        let ghost out0 = out@;
        out.push(MdEvent::Html(row));
        proof {
            let fv = field_views(fields@);
            assert(models(out@) =~= models(out0).push(SpecEvent::Html(row@)));
            assert(fv[i as int] == (fields@[i as int].0@, fields@[i as int].1@));
            assert(row@ == row_text(fv[i as int].0, fv[i as int].1));
            assert(fv.subrange(0, i as int + 1) =~= fv.subrange(0, i as int).push(fv[i as int]));
            assert(table_rows(fv.subrange(0, i as int).push(fv[i as int])) =~= table_rows(
                fv.subrange(0, i as int),
            ).push(SpecEvent::Html(row_text(fv[i as int].0, fv[i as int].1))));
            assert(models(out@) =~= seq![
                SpecEvent::HtmlBlockStart,
                SpecEvent::Html(table_open_text()),
            ] + table_rows(fv.subrange(0, i as int + 1)));
        }
        i += 1;
    }
    out.push(MdEvent::Html(String::from_str("</table>\n")));
    out.push(MdEvent::HtmlBlockEnd);
    proof {
        assert(field_views(fields@).subrange(0, fields@.len() as int) =~= field_views(fields@));
        assert(models(out@) =~= table_events(field_views(fields@)));
    }
    out
}

} // verus!
