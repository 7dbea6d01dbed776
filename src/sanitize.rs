//! Filename cleaning, tag-value quoting and artist/title splitting.

use vstd::prelude::*;
use crate::text::{
    chars_of, find, first_at, is_edge, lemma_trim_back_prefix, lemma_trim_front_suffix,
    trim_back, trim_front, find_char, push_chars, slice_chars, string_of, trim, trim_by, trim_chars,
};

verus! {

/// Unicode general category Cc, as `char::is_control` tests it.
pub open spec fn is_control(c: char) -> bool {
    let u = c as u32;
    u <= 0x1f || (0x7f <= u && u <= 0x9f)
}

/// A character that may not stand in a file name.
pub open spec fn is_forbidden(c: char) -> bool {
    c == '/' || c == '\\' || c == '?' || c == '*' || c == '"' || c == '<' || c == '>' || c == '|'
        || c == ':' || is_control(c)
}

pub open spec fn replace_forbidden(s: Seq<char>) -> Seq<char> {
    s.map_values(|c: char| if is_forbidden(c) { '_' } else { c })
}

pub open spec fn fallback_name() -> Seq<char> {
    seq!['t', 'r', 'a', 'c', 'k']
}

/// The file name made from `s`: forbidden characters become `_`, whitespace and dots are
/// trimmed from both ends, and an empty result becomes `track`.
pub open spec fn sanitized(s: Seq<char>) -> Seq<char> {
    let t = trim_by(replace_forbidden(s), true);
    if t.len() == 0 {
        fallback_name()
    } else {
        t
    }
}

pub open spec fn escape_char(c: char, backslashes: bool) -> Seq<char> {
    if c == '"' || (backslashes && c == '\\') {
        seq!['\\', c]
    } else {
        seq![c]
    }
}

/// `s` with a backslash put before each double quote, and before each backslash when
/// `backslashes` holds.
pub open spec fn escaped(s: Seq<char>, backslashes: bool) -> Seq<char>
    decreases s.len(),
{
    if s.len() == 0 {
        Seq::empty()
    } else {
        escaped(s.drop_last(), backslashes) + escape_char(s.last(), backslashes)
    }
}

/// A tag value in double quotes, its backslashes and double quotes escaped.
pub open spec fn quoted(s: Seq<char>) -> Seq<char> {
    seq!['"'] + escaped(s, true) + seq!['"']
}

/// The two trimmed sides of `s` around the first `d`, when both are non-empty.
pub open spec fn split_at_char(s: Seq<char>, d: char) -> Option<(Seq<char>, Seq<char>)> {
    match find(s, d) {
        Some(i) => {
            let a = trim(s.subrange(0, i));
            let b = trim(s.subrange(i + 1, s.len() as int));
            if a.len() > 0 && b.len() > 0 {
                Some((a, b))
            } else {
                None
            }
        },
        None => None,
    }
}

/// The split of `s` on a hyphen, else an en dash, else an em dash.
pub open spec fn split_on_dash(s: Seq<char>) -> Option<(Seq<char>, Seq<char>)> {
    match split_at_char(s, '-') {
        Some(p) => Some(p),
        None => match split_at_char(s, '\u{2013}') {
            Some(p) => Some(p),
            None => split_at_char(s, '\u{2014}'),
        },
    }
}

pub open spec fn no_forbidden(s: Seq<char>) -> bool {
    forall|i: int| 0 <= i < s.len() ==> !is_forbidden(#[trigger] s[i])
}

fn is_forbidden_char(c: char) -> (r: bool)
    ensures
        r == is_forbidden(c),
{
    let u = c as u32;
    c == '/' || c == '\\' || c == '?' || c == '*' || c == '"' || c == '<' || c == '>' || c == '|'
        || c == ':' || u <= 0x1f || (0x7f <= u && u <= 0x9f)
}

/// Makes `input` safe to use as a file name.
pub fn sanitize_filename(input: &str) -> (r: String)
    ensures
        r@ == sanitized(input@),
{
    let v = chars_of(input);
    let mut out: Vec<char> = Vec::new();
    let mut i: usize = 0;
    while i < v.len()
        invariant
            v@ == input@,
            i <= v@.len(),
            out@ == replace_forbidden(v@.subrange(0, i as int)),
        decreases v@.len() - i,
    {
        let c = v[i];
        if is_forbidden_char(c) {
            out.push('_');
        } else {
            out.push(c);
        }
        i += 1;
        assert(out@ =~= replace_forbidden(v@.subrange(0, i as int)));
    }
    assert(v@.subrange(0, v@.len() as int) =~= v@);
    let t = trim_chars(&out, true);
    if t.len() == 0 {
        let r = String::from_str("track");
        proof {
            reveal_strlit("track");
            assert(r@ =~= fallback_name());
        }
        r
    } else {
        string_of(&t)
    }
}

/// `v` escaped as `escaped` describes.
pub fn escape_chars(v: &Vec<char>, backslashes: bool) -> (r: Vec<char>)
    ensures
        r@ == escaped(v@, backslashes),
{
    let mut out: Vec<char> = Vec::new();
    let mut i: usize = 0;
    while i < v.len()
        invariant
            i <= v@.len(),
            out@ == escaped(v@.subrange(0, i as int), backslashes),
        decreases v@.len() - i,
    {
        let c = v[i];
        let ghost pre = v@.subrange(0, i as int);
        if c == '"' || (backslashes && c == '\\') {
            out.push('\\');
        }
        out.push(c);
        i += 1;
        assert(v@.subrange(0, i as int).drop_last() =~= pre);
        assert(out@ =~= escaped(v@.subrange(0, i as int), backslashes));
    }
    assert(v@.subrange(0, v@.len() as int) =~= v@);
    out
}

/// Escapes the double quotes of a value that goes into a metadata-service query.
pub fn escape_musicbrainz_query(value: &str) -> (r: String)
    ensures
        r@ == escaped(value@, false),
{
    let v = chars_of(value);
    string_of(&escape_chars(&v, false))
}

/// `v` as a quoted tag value.
pub fn quote_chars(v: &Vec<char>) -> (r: Vec<char>)
    ensures
        r@ == quoted(v@),
{
    let mut out: Vec<char> = Vec::new();
    out.push('"');
    let e = escape_chars(v, true);
    push_chars(&mut out, &e);
    out.push('"');
    assert(out@ =~= quoted(v@));
    out
}

/// Quotes a value handed to the downloader's tag-embedding step.
pub fn quote_metadata_value(value: &str) -> (r: String)
    ensures
        r@ == quoted(value@),
{
    let v = chars_of(value);
    string_of(&quote_chars(&v))
}

/// The trimmed sides of `v` around its first `d`, when both are non-empty.
pub fn split_once_trimmed(v: &Vec<char>, d: char) -> (r: Option<(Vec<char>, Vec<char>)>)
    ensures
        match r {
            Some((a, b)) => split_at_char(v@, d) == Some((a@, b@)),
            None => split_at_char(v@, d) is None,
        },
{
    let n = v.len();
    match find_char(v, d) {
        Some(i) => {
            assert(first_at(v@, d, i as int));
            let left = slice_chars(v, 0, i);
            let right = slice_chars(v, i + 1, n);
            let a = trim_chars(&left, false);
            let b = trim_chars(&right, false);
            if a.len() > 0 && b.len() > 0 {
                Some((a, b))
            } else {
                None
            }
        },
        None => None,
    }
}

/// The artist/title split of `v` on the first dash-like delimiter that yields two
/// non-empty sides.
pub fn split_on_dash_chars(v: &Vec<char>) -> (r: Option<(Vec<char>, Vec<char>)>)
    ensures
        match r {
            Some((a, b)) => split_on_dash(v@) == Some((a@, b@)),
            None => split_on_dash(v@) is None,
        },
{
    match split_once_trimmed(v, '-') {
        Some(p) => Some(p),
        None => match split_once_trimmed(v, '\u{2013}') {
            Some(p) => Some(p),
            None => split_once_trimmed(v, '\u{2014}'),
        },
    }
}

fn split_strings(raw: &str) -> (r: Option<(String, String)>)
    ensures
        match r {
            Some((a, b)) => split_on_dash(raw@) == Some((a@, b@)),
            None => split_on_dash(raw@) is None,
        },
{
    let v = chars_of(raw);
    match split_on_dash_chars(&v) {
        Some((a, b)) => Some((string_of(&a), string_of(&b))),
        None => None,
    }
}

/// Splits an album query into artist and album.
pub fn split_artist_album(raw: &str) -> (r: Option<(String, String)>)
    ensures
        match r {
            Some((artist, album)) => split_on_dash(raw@) == Some((artist@, album@)),
            None => split_on_dash(raw@) is None,
        },
{
    split_strings(raw)
}

/// Splits a track query into artist and song.
pub fn split_artist_song(raw: &str) -> (r: Option<(String, String)>)
    ensures
        match r {
            Some((artist, song)) => split_on_dash(raw@) == Some((artist@, song@)),
            None => split_on_dash(raw@) is None,
        },
{
    split_strings(raw)
}

/// What a trim leaves is a run of `s` whose ends are no edge characters.
proof fn lemma_trim_by_shape(s: Seq<char>, dots: bool)
    ensures
        ({
            let t = trim_by(s, dots);
            &&& no_forbidden(s) ==> no_forbidden(t)
            &&& t.len() > 0 ==> !is_edge(t[0], dots) && !is_edge(t.last(), dots)
        }),
{
    let f = trim_front(s, dots);
    let t = trim_back(f, dots);
    lemma_trim_front_suffix(s, dots);
    lemma_trim_back_prefix(f, dots);
    let k = s.len() - f.len();
    if no_forbidden(s) {
        assert forall|i: int| 0 <= i < t.len() implies !is_forbidden(#[trigger] t[i]) by {
            assert(t[i] == f[i]);
            assert(f[i] == s[k + i]);
        }
    }
    if t.len() > 0 {
        assert(t[0] == f[0]);
    }
}

/// A sequence whose ends are no edge characters is left as it is by a trim.
proof fn lemma_trim_by_fixed(s: Seq<char>, dots: bool)
    requires
        s.len() > 0 ==> !is_edge(s[0], dots) && !is_edge(s.last(), dots),
    ensures
        trim_by(s, dots) == s,
{
    assert(trim_front(s, dots) == s);
    assert(trim_back(s, dots) == s);
}

/// A sanitized file name is never empty, holds no character that a file name may not hold,
/// and sanitizing it again leaves it unchanged.
pub proof fn lemma_sanitize_filename(s: Seq<char>)
    ensures
        sanitized(s).len() > 0,
        no_forbidden(sanitized(s)),
        sanitized(sanitized(s)) == sanitized(s),
{
    let r = replace_forbidden(s);
    let t = trim_by(r, true);
    lemma_trim_by_shape(r, true);
    let out = sanitized(s);
    assert(no_forbidden(out)) by {
        if t.len() == 0 {
            assert(out == fallback_name());
        } else {
            assert(no_forbidden(r));
        }
    }
    assert(replace_forbidden(out) =~= out);
    assert(out.len() > 0 ==> !is_edge(out[0], true) && !is_edge(out.last(), true));
    lemma_trim_by_fixed(out, true);
}

} // verus!
