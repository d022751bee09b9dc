//! One line of the file: reading an `export` declaration out of it, and
//! writing a declaration as a line.

use crate::config_file::EnvVariable;
use crate::matching::{captures, regex_captures, trimmed};
use crate::text::{contains, join, join_with, lemma_join_of_split, lemma_split_of_join, occurs_in,
    split, split_on};
use vstd::prelude::*;

verus! {

/// The pattern of a declaration: `export`, white space, a key of letters and
/// underscores, `=`, and the value up to the end of the line; one quote
/// character before the value and one after it are not part of it. Group 1 is
/// the key, group 2 the value.
pub const EXPORT_PATTERN: &'static str = "^export\\s+([a-zA-Z_]+)=['\"]?(.*?)['\"]?$";

/// What a declaration says: the name of the variable and the segments of its
/// value.
pub struct Declaration {
    pub key: Seq<char>,
    pub value: Seq<Seq<char>>,
}

/// Whether `raw` holds the beginning of a URL, `http://` or `https://`.
pub open spec fn has_url(raw: Seq<char>) -> bool {
    occurs_in("http://"@, raw) || occurs_in("https://"@, raw)
}

/// The segments of the value `raw`: `raw` itself where it holds a URL, whose
/// colons are no separators; else its pieces between the colons.
pub open spec fn segments(raw: Seq<char>) -> Seq<Seq<char>> {
    if has_url(raw) {
        seq![raw]
    } else {
        split_on(raw, ':')
    }
}

/// The declaration that the capture groups of a match stand for, if groups 1
/// and 2 are there.
pub open spec fn declaration_of(groups: Seq<Option<Seq<char>>>) -> Option<Declaration> {
    if groups.len() > 2 && groups[1] is Some && groups[2] is Some {
        Some(Declaration { key: groups[1]->0, value: segments(groups[2]->0) })
    } else {
        None
    }
}

/// The declaration that `line` holds, if it is one: what the groups of
/// `EXPORT_PATTERN` stand for on the trimmed line.
pub open spec fn parsed(line: Seq<char>) -> Option<Declaration> {
    match regex_captures(EXPORT_PATTERN@, trimmed(line)) {
        Some(groups) => declaration_of(groups),
        None => None,
    }
}

/// The line `export KEY="v1:v2:..."` for a key and the raw text of a value.
pub open spec fn export_line(key: Seq<char>, raw: Seq<char>) -> Seq<char> {
    "export "@ + key + "=\""@ + raw + "\""@
}

/// The canonical line of a declaration: its value is always written between
/// double quotes, its segments with colons between them.
pub open spec fn rendered(d: Declaration) -> Seq<char> {
    export_line(d.key, join_with(d.value, seq![':']))
}

/// Writing down the segments of a value gives the value back: the canonical
/// line of a declaration read from a key and a raw value is
/// `export KEY="raw"`, whether the value was split at its colons or kept whole
/// as a URL.
pub proof fn lemma_rendered_segments(key: Seq<char>, raw: Seq<char>)
    ensures
        rendered(Declaration { key, value: segments(raw) }) == export_line(key, raw),
{
    if has_url(raw) {
        assert(seq![raw].len() == 1);
        assert(join_with(seq![raw], seq![':']) == raw);
    } else {
        lemma_join_of_split(raw, ':');
    }
}

/// Reading back what was written gives the same segments: where no segment
/// holds a colon and their joined text holds no URL, the segments of that text
/// are the segments that were joined.
pub proof fn lemma_segments_of_joined(value: Seq<Seq<char>>)
    requires
        value.len() >= 1,
        forall|i: int| 0 <= i < value.len() ==> !(#[trigger] value[i]).contains(':'),
        !has_url(join_with(value, seq![':'])),
    ensures
        segments(join_with(value, seq![':'])) == value,
{
    lemma_split_of_join(value, ':');
}

/// The segments of the value `raw`.
pub fn segment_value(raw: &str) -> (parts: Vec<String>)
    ensures
        parts.deep_view() == segments(raw@),
        has_url(raw@) ==> parts.deep_view() == seq![raw@],
        !has_url(raw@) ==> parts.deep_view() == split_on(raw@, ':'),
{
    if contains(raw, "http://") || contains(raw, "https://") {
        let mut parts: Vec<String> = Vec::new();
        parts.push(raw.to_owned());
        assert(parts.deep_view() == seq![raw@]);
        parts
    } else {
        split(raw, ':')
    }
}

/// The declaration that the capture groups of a match stand for: group 1 is
/// its key, group 2 its value.
pub fn declaration_from(groups: &Vec<Option<String>>) -> (r: Option<EnvVariable>)
    ensures
        match r {
            Some(env) => declaration_of(groups.deep_view()) == Some(env@),
            None => declaration_of(groups.deep_view()) is None,
        },
{
    if groups.len() <= 2 {
        return None;
    }
    assert(groups.deep_view()[1] == groups[1].deep_view());
    assert(groups.deep_view()[2] == groups[2].deep_view());
    match (&groups[1], &groups[2]) {
        (Some(key), Some(raw)) => {
            Some(EnvVariable { key: key.clone(), value: segment_value(raw.as_str()) })
        },
        _ => None,
    }
}

/// Reads `line` as a declaration: `None` where it is none.
pub fn parse_export(line: &str) -> (r: Option<EnvVariable>)
    ensures
        match r {
            Some(env) => parsed(line@) == Some(env@),
            None => parsed(line@) is None,
        },
{
    match captures(EXPORT_PATTERN, line.trim()) {
        Some(groups) => declaration_from(&groups),
        None => None,
    }
}

/// The canonical line of `env`.
pub fn render(env: &EnvVariable) -> (line: String)
    ensures
        line@ == rendered(env@),
{
    let mut line = "export ".to_owned();
    line.append(env.key.as_str());
    line.append("=\"");
    let value = join(&env.value, ":");
    proof {
        reveal_strlit(":");
        assert(":"@ == seq![':']);
    }
    line.append(value.as_str());
    line.append("\"");
    line
}

} // verus!
