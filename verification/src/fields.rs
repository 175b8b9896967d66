//! Parsing of the `key: value` lines captured inside a frontmatter region.
//!
//! Each captured line is split at its first colon; lines without a colon are
//! dropped. Keys and values are trimmed of surrounding whitespace, and
//! the resulting entries form a mapping in which a repeated key keeps its
//! first position while the value written last wins.

use vstd::prelude::*;
use vstd::string::StrSliceExecFns;
use vstd::string::StringExecFns;

verus! {

/// A whitespace character, as trimmed from the ends of keys and values: the
/// Unicode White_Space set.
pub open spec fn is_ws_char(c: char) -> bool {
    c == ' ' || c == '\t' || c == '\n' || c == '\r' || c == '\u{b}' || c == '\u{c}' || c
        == '\u{85}' || c == '\u{a0}' || c == '\u{1680}' || c == '\u{2000}' || c == '\u{2001}' || c
        == '\u{2002}' || c == '\u{2003}' || c == '\u{2004}' || c == '\u{2005}' || c == '\u{2006}'
        || c == '\u{2007}' || c == '\u{2008}' || c == '\u{2009}' || c == '\u{200a}' || c
        == '\u{2028}' || c == '\u{2029}' || c == '\u{202f}' || c == '\u{205f}' || c == '\u{3000}'
}

/// The text with its leading whitespace removed.
pub open spec fn trim_start(s: Seq<char>) -> Seq<char>
    decreases s.len(),
{
    if s.len() == 0 {
        s
    } else if is_ws_char(s[0]) {
        trim_start(s.drop_first())
    } else {
        s
    }
}

/// The text with its trailing whitespace removed.
pub open spec fn trim_end(s: Seq<char>) -> Seq<char>
    decreases s.len(),
{
    if s.len() == 0 {
        s
    } else if is_ws_char(s[s.len() - 1]) {
        trim_end(s.drop_last())
    } else {
        s
    }
}

/// The text with whitespace removed from both ends.
pub open spec fn trimmed(s: Seq<char>) -> Seq<char> {
    trim_end(trim_start(s))
}

/// The index of the first colon in the text, if any.
pub open spec fn find_colon(s: Seq<char>) -> Option<int>
    decreases s.len(),
{
    if s.len() == 0 {
        None
    } else if s[0] == ':' {
        Some(0)
    } else {
        match find_colon(s.drop_first()) {
            Some(i) => Some(i + 1),
            None => None,
        }
    }
}

/// The trimmed key and value of a captured line, split at its first colon;
/// a line without a colon yields nothing.
pub open spec fn parse_line(line: Seq<char>) -> Option<(Seq<char>, Seq<char>)> {
    match find_colon(line) {
        Some(i) => Some(
            (trimmed(line.subrange(0, i)), trimmed(line.subrange(i + 1, line.len() as int))),
        ),
        None => None,
    }
}

/// Stores `key -> value` in the mapping: an existing entry for the key keeps
/// its position and takes the new value; otherwise the entry is appended.
pub open spec fn insert_entry(
    fields: Seq<(Seq<char>, Seq<char>)>,
    key: Seq<char>,
    value: Seq<char>,
) -> Seq<(Seq<char>, Seq<char>)>
    decreases fields.len(),
{
    if fields.len() == 0 {
        seq![(key, value)]
    } else if fields[0].0 == key {
        seq![(key, value)] + fields.drop_first()
    } else {
        seq![fields[0]] + insert_entry(fields.drop_first(), key, value)
    }
}

/// The field mapping built from the captured lines, in order: every line
/// with a colon contributes its trimmed key and value, later values winning
/// over earlier ones for the same key.
pub open spec fn fields_of(lines: Seq<Seq<char>>) -> Seq<(Seq<char>, Seq<char>)>
    decreases lines.len(),
{
    if lines.len() == 0 {
        Seq::empty()
    } else {
        let prev = fields_of(lines.drop_last());
        match parse_line(lines.last()) {
            Some(kv) => insert_entry(prev, kv.0, kv.1),
            None => prev,
        }
    }
}

/// The views of a sequence of owned lines.
pub open spec fn line_views(lines: Seq<String>) -> Seq<Seq<char>> {
    lines.map_values(|l: String| l@)
}

/// The views of a sequence of owned field entries.
pub open spec fn field_views(fields: Seq<(String, String)>) -> Seq<(Seq<char>, Seq<char>)> {
    fields.map_values(|f: (String, String)| (f.0@, f.1@))
}

/// Whether the mapping holds an entry for the key.
pub open spec fn has_key(fields: Seq<(Seq<char>, Seq<char>)>, key: Seq<char>) -> bool {
    exists|j: int| 0 <= j < fields.len() && fields[j].0 == key
}

/// The value the mapping holds for the key, if any.
pub open spec fn lookup(fields: Seq<(Seq<char>, Seq<char>)>, key: Seq<char>) -> Option<Seq<char>>
    decreases fields.len(),
{
    if fields.len() == 0 {
        None
    } else if fields[0].0 == key {
        Some(fields[0].1)
    } else {
        lookup(fields.drop_first(), key)
    }
}

/// The trimmed key of a captured line; meaningful only for a line with a
/// colon.
pub open spec fn line_key(line: Seq<char>) -> Seq<char>
    recommends
        parse_line(line) is Some,
{
    parse_line(line).unwrap().0
}

/// How many of the captured lines contain a colon.
pub open spec fn colon_line_count(lines: Seq<Seq<char>>) -> nat
    decreases lines.len(),
{
    if lines.len() == 0 {
        0
    } else {
        colon_line_count(lines.drop_last()) + if parse_line(lines.last()) is Some {
            1nat
        } else {
            0nat
        }
    }
}

/// Whether no two colon-containing lines share a trimmed key.
pub open spec fn distinct_keys(lines: Seq<Seq<char>>) -> bool {
    forall|i: int, j: int|
        0 <= i < j < lines.len() && parse_line(lines[i]) is Some && parse_line(lines[j]) is Some
            ==> line_key(lines[i]) != line_key(lines[j])
}

pub(crate) proof fn lemma_has_key_unfold(fields: Seq<(Seq<char>, Seq<char>)>, k: Seq<char>)
    ensures
        has_key(fields, k) <==> (fields.len() > 0 && (fields[0].0 == k || has_key(
            fields.drop_first(),
            k,
        ))),
{
    if fields.len() > 0 {
        if has_key(fields, k) {
            let j = choose|j: int| 0 <= j < fields.len() && fields[j].0 == k;
            if j > 0 {
                assert(fields.drop_first()[j - 1].0 == k);
            }
        }
        if has_key(fields.drop_first(), k) {
            let j = choose|j: int|
                0 <= j < fields.drop_first().len() && fields.drop_first()[j].0 == k;
            assert(fields[j + 1].0 == k);
        }
    }
}

pub(crate) proof fn lemma_insert_keys(
    fields: Seq<(Seq<char>, Seq<char>)>,
    key: Seq<char>,
    value: Seq<char>,
    k: Seq<char>,
)
    ensures
        has_key(insert_entry(fields, key, value), k) <==> (k == key || has_key(fields, k)),
    decreases fields.len(),
{
    let r = insert_entry(fields, key, value);
    lemma_has_key_unfold(fields, k);
    lemma_has_key_unfold(r, k);
    if fields.len() == 0 {
        assert(r =~= seq![(key, value)]);
    } else if fields[0].0 == key {
        assert(r =~= seq![(key, value)] + fields.drop_first());
        assert(r.drop_first() =~= fields.drop_first());
    } else {
        assert(r =~= seq![fields[0]] + insert_entry(fields.drop_first(), key, value));
        assert(r.drop_first() =~= insert_entry(fields.drop_first(), key, value));
        lemma_insert_keys(fields.drop_first(), key, value, k);
    }
}

pub(crate) proof fn lemma_insert_len(
    fields: Seq<(Seq<char>, Seq<char>)>,
    key: Seq<char>,
    value: Seq<char>,
)
    ensures
        insert_entry(fields, key, value).len() == if has_key(fields, key) {
            fields.len()
        } else {
            fields.len() + 1
        },
    decreases fields.len(),
{
    lemma_has_key_unfold(fields, key);
    if fields.len() > 0 && fields[0].0 != key {
        lemma_insert_len(fields.drop_first(), key, value);
    }
}

pub(crate) proof fn lemma_insert_lookup(
    fields: Seq<(Seq<char>, Seq<char>)>,
    key: Seq<char>,
    value: Seq<char>,
)
    ensures
        lookup(insert_entry(fields, key, value), key) == Some(value),
    decreases fields.len(),
{
    let r = insert_entry(fields, key, value);
    if fields.len() == 0 {
        assert(r =~= seq![(key, value)]);
    } else if fields[0].0 == key {
        assert(r[0] == (key, value));
    } else {
        lemma_insert_lookup(fields.drop_first(), key, value);
        assert(r[0] == fields[0]);
        assert(r.drop_first() =~= insert_entry(fields.drop_first(), key, value));
    }
}

pub(crate) proof fn lemma_fields_of_keys(lines: Seq<Seq<char>>, k: Seq<char>)
    ensures
        has_key(fields_of(lines), k) <==> exists|i: int|
            0 <= i < lines.len() && parse_line(lines[i]) is Some && line_key(lines[i]) == k,
    decreases lines.len(),
{
    if lines.len() > 0 {
        let prev = lines.drop_last();
        let n = lines.len() - 1;
        lemma_fields_of_keys(prev, k);
        assert(forall|i: int| 0 <= i < prev.len() ==> prev[i] == lines[i]);
        match parse_line(lines.last()) {
            Some(kv) => {
                lemma_insert_keys(fields_of(prev), kv.0, kv.1, k);
                assert(parse_line(lines[n]) == Some(kv));
                if has_key(fields_of(lines), k) {
                    if k == kv.0 {
                        assert(parse_line(lines[n]) is Some && line_key(lines[n]) == k);
                    } else {
                        let i = choose|i: int|
                            0 <= i < prev.len() && parse_line(prev[i]) is Some && line_key(
                                prev[i],
                            ) == k;
                        assert(parse_line(lines[i]) is Some && line_key(lines[i]) == k);
                    }
                }
                if exists|i: int|
                    0 <= i < lines.len() && parse_line(lines[i]) is Some && line_key(lines[i])
                        == k {
                    let i = choose|i: int|
                        0 <= i < lines.len() && parse_line(lines[i]) is Some && line_key(lines[i])
                            == k;
                    if i < n {
                        assert(parse_line(prev[i]) is Some && line_key(prev[i]) == k);
                    }
                }
            },
            None => {
                if exists|i: int|
                    0 <= i < lines.len() && parse_line(lines[i]) is Some && line_key(lines[i])
                        == k {
                    let i = choose|i: int|
                        0 <= i < lines.len() && parse_line(lines[i]) is Some && line_key(lines[i])
                            == k;
                    assert(i < n);
                    assert(parse_line(prev[i]) is Some && line_key(prev[i]) == k);
                }
                if has_key(fields_of(lines), k) {
                    let i = choose|i: int|
                        0 <= i < prev.len() && parse_line(prev[i]) is Some && line_key(prev[i])
                            == k;
                    assert(parse_line(lines[i]) is Some && line_key(lines[i]) == k);
                }
            },
        }
    }
}

proof fn lemma_trim_start_skip(s: Seq<char>, i: int)
    requires
        0 <= i <= s.len(),
        forall|j: int| 0 <= j < i ==> is_ws_char(s[j]),
    ensures
        trim_start(s) == trim_start(s.subrange(i, s.len() as int)),
    decreases i,
{
    if i > 0 {
        assert(is_ws_char(s[0]));
        assert(s.drop_first() =~= s.subrange(1, s.len() as int));
        lemma_trim_start_skip(s.drop_first(), i - 1);
        assert(s.drop_first().subrange(i - 1, s.drop_first().len() as int) =~= s.subrange(
            i,
            s.len() as int,
        ));
    } else {
        assert(s.subrange(0, s.len() as int) =~= s);
    }
}

proof fn lemma_trim_end_skip(s: Seq<char>, i: int)
    requires
        0 <= i <= s.len(),
        forall|j: int| i <= j < s.len() ==> is_ws_char(s[j]),
    ensures
        trim_end(s) == trim_end(s.subrange(0, i)),
    decreases s.len() - i,
{
    if i < s.len() {
        assert(is_ws_char(s[s.len() - 1]));
        assert(s.drop_last() =~= s.subrange(0, s.len() - 1));
        lemma_trim_end_skip(s.drop_last(), i);
        assert(s.drop_last().subrange(0, i) =~= s.subrange(0, i));
    } else {
        assert(s.subrange(0, s.len() as int) =~= s);
    }
}

proof fn lemma_find_colon_some(s: Seq<char>, i: int)
    requires
        0 <= i < s.len(),
        s[i] == ':',
        forall|j: int| 0 <= j < i ==> s[j] != ':',
    ensures
        find_colon(s) == Some(i),
    decreases i,
{
    if i > 0 {
        lemma_find_colon_some(s.drop_first(), i - 1);
    }
}

proof fn lemma_find_colon_none(s: Seq<char>)
    requires
        forall|j: int| 0 <= j < s.len() ==> s[j] != ':',
    ensures
        find_colon(s) == None::<int>,
    decreases s.len(),
{
    if s.len() > 0 {
        lemma_find_colon_none(s.drop_first());
    }
}

proof fn lemma_find_colon_bounds(s: Seq<char>)
    ensures
        match find_colon(s) {
            Some(i) => 0 <= i < s.len() && s[i] == ':',
            None => true,
        },
    decreases s.len(),
{
    if s.len() > 0 && s[0] != ':' {
        lemma_find_colon_bounds(s.drop_first());
    }
}

fn ws_char(c: char) -> (r: bool)
    ensures
        r == is_ws_char(c),
{
    c == ' ' || c == '\t' || c == '\n' || c == '\r' || c == '\u{b}' || c == '\u{c}' || c
        == '\u{85}' || c == '\u{a0}' || c == '\u{1680}' || c == '\u{2000}' || c == '\u{2001}' || c
        == '\u{2002}' || c == '\u{2003}' || c == '\u{2004}' || c == '\u{2005}' || c == '\u{2006}'
        || c == '\u{2007}' || c == '\u{2008}' || c == '\u{2009}' || c == '\u{200a}' || c
        == '\u{2028}' || c == '\u{2029}' || c == '\u{202f}' || c == '\u{205f}' || c == '\u{3000}'
}

/// Removes whitespace from both ends of the text.
pub fn trim_text(s: &str) -> (r: String)
    ensures
        r@ == trimmed(s@),
{
    let n = s.unicode_len();
    let mut start: usize = 0;
    while start < n && ws_char(s.get_char(start))
        invariant
            n == s@.len(),
            start <= n,
            forall|j: int| 0 <= j < start ==> is_ws_char(s@[j]),
        decreases n - start,
    {
        start += 1;
    }
    let mut end: usize = n;
    while end > start && ws_char(s.get_char(end - 1))
        invariant
            start <= end <= n,
            n == s@.len(),
            forall|j: int| end <= j < n ==> is_ws_char(s@[j]),
        decreases end,
    {
        end -= 1;
    }
    proof {
        lemma_trim_start_skip(s@, start as int);
        let t = s@.subrange(start as int, s@.len() as int);
        if start < n {
            assert(!is_ws_char(t[0]));
        }
        assert(trim_start(t) == t);
        assert(forall|j: int| end - start <= j < t.len() ==> is_ws_char(t[j]));
        lemma_trim_end_skip(t, end - start);
        let u = t.subrange(0, end - start);
        assert(u =~= s@.subrange(start as int, end as int));
        if end > start {
            assert(!is_ws_char(u[u.len() - 1]));
        }
        assert(trim_end(u) == u);
    }
    let sub = s.substring_char(start, end);
    String::from_str(sub)
}

/// Finds the first colon in the text, if any.
pub fn first_colon(s: &str) -> (r: Option<usize>)
    ensures
        match r {
            Some(i) => find_colon(s@) == Some(i as int),
            None => find_colon(s@) == None::<int>,
        },
{
    let n = s.unicode_len();
    let mut i: usize = 0;
    while i < n
        invariant
            n == s@.len(),
            i <= n,
            forall|j: int| 0 <= j < i ==> s@[j] != ':',
        decreases n - i,
    {
        if s.get_char(i) == ':' {
            proof {
                lemma_find_colon_some(s@, i as int);
            }
            return Some(i);
        }
        i += 1;
    }
    proof {
        lemma_find_colon_none(s@);
    }
    None
}

/// Splits a captured line at its first colon into a trimmed key and value;
/// a line without a colon yields nothing.
pub fn split_field_line(line: &str) -> (r: Option<(String, String)>)
    ensures
        match r {
            Some(kv) => parse_line(line@) == Some((kv.0@, kv.1@)),
            None => parse_line(line@) == None::<(Seq<char>, Seq<char>)>,
        },
{
    match first_colon(line) {
        Some(i) => {
            let n = line.unicode_len();
            proof {
                lemma_find_colon_bounds(line@);
            }
            let key_part = line.substring_char(0, i);
            let val_part = line.substring_char(i + 1, n);
            let k = trim_text(key_part);
            let v = trim_text(val_part);
            Some((k, v))
        },
        None => None,
    }
}

proof fn lemma_insert_at(fields: Seq<(Seq<char>, Seq<char>)>, key: Seq<char>, value: Seq<char>, i: int)
    requires
        0 <= i < fields.len(),
        fields[i].0 == key,
        forall|j: int| 0 <= j < i ==> fields[j].0 != key,
    ensures
        insert_entry(fields, key, value) =~= fields.update(i, (key, value)),
    decreases i,
{
    if i == 0 {
        assert(insert_entry(fields, key, value) == seq![(key, value)] + fields.drop_first());
    } else {
        lemma_insert_at(fields.drop_first(), key, value, i - 1);
    }
}

proof fn lemma_insert_absent(fields: Seq<(Seq<char>, Seq<char>)>, key: Seq<char>, value: Seq<char>)
    requires
        forall|j: int| 0 <= j < fields.len() ==> fields[j].0 != key,
    ensures
        insert_entry(fields, key, value) =~= fields.push((key, value)),
    decreases fields.len(),
{
    if fields.len() > 0 {
        lemma_insert_absent(fields.drop_first(), key, value);
    }
}

/// Stores `key -> value` in the mapping, overwriting the value of an
/// existing entry for the key and appending a new entry otherwise.
pub fn insert_field(fields: &mut Vec<(String, String)>, key: String, value: String)
    ensures
        field_views(final(fields)@) == insert_entry(field_views(old(fields)@), key@, value@),
{
    let mut i: usize = 0;
    while i < fields.len()
        invariant
            i <= fields@.len(),
            fields@ == old(fields)@,
            forall|j: int| 0 <= j < i ==> field_views(fields@)[j].0 != key@,
        decreases fields@.len() - i,
    {
        if fields[i].0 == key {
            proof {
                lemma_insert_at(field_views(fields@), key@, value@, i as int);
            }
            fields.remove(i);
            fields.insert(i, (key, value));
            proof {
                assert(field_views(fields@) =~= field_views(old(fields)@).update(
                    i as int,
                    (key@, value@),
                ));
            }
            return ;
        }
        i += 1;
    }
    proof {
        lemma_insert_absent(field_views(fields@), key@, value@);
    }
    fields.push((key, value));
    proof {
        assert(field_views(fields@) =~= field_views(old(fields)@).push((key@, value@)));
    }
}

/// Builds the field mapping from the captured lines of one frontmatter
/// region: each line with a colon contributes its trimmed key and value,
/// a repeated key keeping its first position with the value written last.
pub fn parse_frontmatter(lines: &Vec<String>) -> (r: Vec<(String, String)>)
    ensures
        field_views(r@) == fields_of(line_views(lines@)),
{
    let mut fields: Vec<(String, String)> = Vec::new();
    let mut i: usize = 0;
    proof {
        assert(field_views(fields@) =~= fields_of(line_views(lines@).subrange(0, 0)));
    }
    while i < lines.len()
        invariant
            i <= lines@.len(),
            field_views(fields@) == fields_of(line_views(lines@).subrange(0, i as int)),
        decreases lines@.len() - i,
    {
        let ghost pre = line_views(lines@).subrange(0, i as int);
        let ghost post = line_views(lines@).subrange(0, i as int + 1);
        match split_field_line(lines[i].as_str()) {
            Some(kv) => {
                let (k, v) = kv;
                insert_field(&mut fields, k, v);
            },
            None => {},
        }
        proof {
            assert(post.drop_last() =~= pre);
            assert(post.last() == line_views(lines@)[i as int]);
        }
        i += 1;
    }
    proof {
        assert(line_views(lines@).subrange(0, lines@.len() as int) =~= line_views(lines@));
    }
    fields
}

} // verus!
