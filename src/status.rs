//! Reading the status listing of running servers: one `<link> :: <folder>`
//! record per line, best effort, in the order of the lines.
use vstd::prelude::*;
use vstd::utf8::{decode_utf8, valid_utf8};
use crate::error::LauncherError;
use crate::session::{session_of, Server, ServerView};
use crate::text::{chars_of, has_prefix, split_on, starts_with, trim, trimmed};

verus! {

/// A line that lists a server may begin with this.
pub const HTTP_PREFIX: &'static str = "http";

/// The tag that the listing program puts before its log lines.
pub const LIST_TAG: &'static str = "[JupyterServerListApp]";

/// Whether `s` holds the separator `::` at `j`.
pub open spec fn sep_at(s: Seq<char>, j: int) -> bool {
    0 <= j && j + 1 < s.len() && s[j] == ':' && s[j + 1] == ':'
}

/// The first position at or after `k` that holds the separator.
pub open spec fn next_sep(s: Seq<char>, k: int) -> Option<int>
    decreases s.len() - k,
{
    if k < 0 || k + 1 >= s.len() {
        None
    } else if sep_at(s, k) {
        Some(k)
    } else {
        next_sep(s, k + 1)
    }
}

/// The two fields of `s` where `s` splits on `::` into exactly two, as
/// `str::split("::")` splits it: left to right, without overlap.
pub open spec fn fields(s: Seq<char>) -> Option<(Seq<char>, Seq<char>)> {
    match next_sep(s, 0) {
        Some(i) => if next_sep(s, i + 2) is None {
            Some((s.take(i), s.skip(i + 2)))
        } else {
            None
        },
        None => None,
    }
}

/// The link of a record, from its first field: trimmed, and without the
/// listing program's tag.
pub open spec fn link_of(field: Seq<char>) -> Seq<char> {
    let l = trim(field);
    if starts_with(l, LIST_TAG@) {
        trim(l.skip(LIST_TAG@.len() as int))
    } else {
        l
    }
}

/// The `(link, folder)` record that `line` lists, if it lists one.
pub open spec fn record_of(line: Seq<char>) -> Option<(Seq<char>, Seq<char>)> {
    if starts_with(line, HTTP_PREFIX@) || starts_with(line, LIST_TAG@) {
        match fields(line) {
            Some((a, b)) => Some((link_of(a), trim(b))),
            None => None,
        }
    } else {
        None
    }
}

/// The records that `lines` list, in order.
pub open spec fn records_of(lines: Seq<Seq<char>>) -> Seq<(Seq<char>, Seq<char>)>
    decreases lines.len(),
{
    if lines.len() == 0 {
        seq![]
    } else {
        let prev = records_of(lines.drop_last());
        match record_of(lines.last()) {
            Some(r) => prev.push(r),
            None => prev,
        }
    }
}

/// The records that the listing `text` holds, line by line.
pub open spec fn status_records(text: Seq<char>) -> Seq<(Seq<char>, Seq<char>)> {
    records_of(split_on(text, '\n'))
}

/// The sessions of `recs`, or the error of the first record that makes none.
pub open spec fn sessions_of(recs: Seq<(Seq<char>, Seq<char>)>) -> Result<
    Seq<ServerView>,
    LauncherError,
>
    decreases recs.len(),
{
    if recs.len() == 0 {
        Ok(seq![])
    } else {
        match sessions_of(recs.drop_last()) {
            Err(e) => Err(e),
            Ok(prev) => match session_of(recs.last().0, recs.last().1) {
                Ok(s) => Ok(prev.push(s)),
                Err(e) => Err(e),
            },
        }
    }
}

pub proof fn lemma_records_push(lines: Seq<Seq<char>>, line: Seq<char>)
    ensures
        records_of(lines.push(line)) == match record_of(line) {
            Some(r) => records_of(lines).push(r),
            None => records_of(lines),
        },
{
    assert(lines.push(line).drop_last() =~= lines);
}

/// An empty line lists nothing.
pub proof fn lemma_records_push_empty(lines: Seq<Seq<char>>)
    ensures
        records_of(lines.push(Seq::<char>::empty())) == records_of(lines),
{
    reveal_strlit("http");
    reveal_strlit("[JupyterServerListApp]");
    lemma_records_push(lines, Seq::<char>::empty());
}

proof fn lemma_sessions_push(recs: Seq<(Seq<char>, Seq<char>)>, rec: (Seq<char>, Seq<char>))
    ensures
        sessions_of(recs.push(rec)) == match sessions_of(recs) {
            Err(e) => Err(e),
            Ok(prev) => match session_of(rec.0, rec.1) {
                Ok(s) => Ok(prev.push(s)),
                Err(e) => Err(e),
            },
        },
{
    assert(recs.push(rec).drop_last() =~= recs);
}

/// The step that one more line makes in the sessions of a listing.
proof fn lemma_line_step(lines: Seq<Seq<char>>, line: Seq<char>)
    ensures
        sessions_of(records_of(lines.push(line))) == match sessions_of(records_of(lines)) {
            Err(e) => Err(e),
            Ok(prev) => match record_of(line) {
                None => Ok(prev),
                Some(rec) => match session_of(rec.0, rec.1) {
                    Ok(s) => Ok(prev.push(s)),
                    Err(e) => Err(e),
                },
            },
        },
{
    lemma_records_push(lines, line);
    if let Some(rec) = record_of(line) {
        lemma_sessions_push(records_of(lines), rec);
    }
}

pub open spec fn views(v: Seq<Server>) -> Seq<ServerView> {
    v.map_values(|s: Server| s@)
}

/// The first separator in `v` at or after `k`.
fn find_sep(v: &Vec<char>, k: usize) -> (r: Option<usize>)
    requires
        k <= v.len(),
    ensures
        r matches Some(j) ==> next_sep(v@, k as int) == Some(j as int) && j + 1 < v.len(),
        r is None ==> next_sep(v@, k as int) is None,
{
    let mut j: usize = k;
    while j < v.len() && v.len() - j > 1
        invariant
            k <= j <= v.len(),
            next_sep(v@, k as int) == next_sep(v@, j as int),
        decreases v.len() - j,
    {
        if v[j] == ':' && v[j + 1] == ':' {
            return Some(j);
        }
        j = j + 1;
    }
    None
}

/// The record that `line` lists, if it lists one.
fn line_record(line: &Vec<char>, http: &Vec<char>, tag: &Vec<char>) -> (r: Option<
    (Vec<char>, Vec<char>),
>)
    requires
        http@ == HTTP_PREFIX@,
        tag@ == LIST_TAG@,
    ensures
        r matches Some(p) ==> record_of(line@) == Some((p.0@, p.1@)),
        r is None ==> record_of(line@) is None,
{
    if !(has_prefix(line, http) || has_prefix(line, tag)) {
        return None;
    }
    let i = match find_sep(line, 0) {
        Some(i) => i,
        None => return None,
    };
    if find_sep(line, i + 2).is_some() {
        return None;
    }
    assert(line@.subrange(0, i as int) =~= line@.take(i as int));
    assert(line@.subrange(i + 2, line@.len() as int) =~= line@.skip(i + 2));
    let first = trimmed(line, 0, i);
    let link = if has_prefix(&first, tag) {
        assert(first@.subrange(tag@.len() as int, first@.len() as int) =~= first@.skip(
            tag@.len() as int,
        ));
        trimmed(&first, tag.len(), first.len())
    } else {
        first
    };
    let folder = trimmed(line, i + 2, line.len());
    Some((link, folder))
}

/// Records the session that `line` lists, if it lists one.
fn add_line(line: &Vec<char>, http: &Vec<char>, tag: &Vec<char>, data: &mut Vec<Server>) -> (r:
    Result<(), LauncherError>)
    requires
        http@ == HTTP_PREFIX@,
        tag@ == LIST_TAG@,
    ensures
        match record_of(line@) {
            None => r is Ok && final(data)@ == old(data)@,
            Some(rec) => match session_of(rec.0, rec.1) {
                Ok(s) => r is Ok && views(final(data)@) == views(old(data)@).push(s),
                Err(e) => r == Err::<(), LauncherError>(e),
            },
        },
{
    match line_record(line, http, tag) {
        None => Ok(()),
        Some((link, folder)) => {
            let link_text = crate::text::string_of(&link);
            let folder_text = crate::text::string_of(&folder);
            match Server::new(link_text.as_str(), folder_text.as_str()) {
                Ok(s) => {
                    data.push(s);
                    assert(views(data@) =~= views(old(data)@).push(s@));
                    Ok(())
                },
                Err(e) => Err(e),
            }
        },
    }
}

/// The sessions that the listing `text` holds, one per line that lists a
/// server, in the order of the lines. A line lists a server when it begins
/// with `http` or with the listing tag and splits on `::` into exactly two
/// fields; other lines are passed over.
pub fn parse_text(text: &str) -> (r: Result<Vec<Server>, LauncherError>)
    ensures
        match r {
            Ok(v) => sessions_of(status_records(text@)) == Ok::<Seq<ServerView>, LauncherError>(
                views(v@),
            ),
            Err(e) => sessions_of(status_records(text@)) == Err::<Seq<ServerView>, LauncherError>(
                e,
            ),
        },
{
    let http = chars_of(HTTP_PREFIX);
    let tag = chars_of(LIST_TAG);
    let t = chars_of(text);
    let mut data: Vec<Server> = Vec::new();
    let mut failed: Option<LauncherError> = None;
    let mut cur: Vec<char> = Vec::new();
    let mut i: usize = 0;
    proof {
        assert(t@.take(0) =~= Seq::<char>::empty());
        assert(views(data@) =~= Seq::<ServerView>::empty());
    }
    while i < t.len()
        invariant
            0 <= i <= t.len(),
            http@ == HTTP_PREFIX@,
            tag@ == LIST_TAG@,
            split_on(t@.take(i as int), '\n').len() >= 1,
            cur@ == split_on(t@.take(i as int), '\n').last(),
            sessions_of(records_of(split_on(t@.take(i as int), '\n').drop_last())) == match failed {
                None => Ok::<Seq<ServerView>, LauncherError>(views(data@)),
                Some(e) => Err(e),
            },
        decreases t.len() - i,
    {
        let c = t[i];
        let ghost lines = split_on(t@.take(i as int), '\n');
        assert(t@.take(i + 1).drop_last() =~= t@.take(i as int));
        if c == '\n' {
            assert(split_on(t@.take(i + 1), '\n').drop_last() =~= lines);
            assert(lines =~= lines.drop_last().push(lines.last()));
            proof {
                lemma_line_step(lines.drop_last(), cur@);
            }
            if failed.is_none() {
                match add_line(&cur, &http, &tag, &mut data) {
                    Ok(()) => {},
                    Err(e) => {
                        failed = Some(e);
                    },
                }
            }
            cur = Vec::new();
        } else {
            cur.push(c);
            assert(split_on(t@.take(i + 1), '\n').drop_last() =~= lines.drop_last());
        }
        i = i + 1;
    }
    assert(t@.take(i as int) =~= t@);
    let ghost lines = split_on(t@, '\n');
    assert(lines =~= lines.drop_last().push(lines.last()));
    proof {
        lemma_line_step(lines.drop_last(), cur@);
    }
    match failed {
        Some(e) => Err(e),
        None => match add_line(&cur, &http, &tag, &mut data) {
            Ok(()) => Ok(data),
            Err(e) => Err(e),
        },
    }
}

/// Relies on `String::from_utf8`: it accepts exactly the valid UTF-8 byte
/// sequences, and the string holds the characters they encode.
#[verifier::external_body]
fn utf8_text(bytes: Vec<u8>) -> (r: Option<String>)
    ensures
        r is Some <==> valid_utf8(bytes@),
        r matches Some(s) ==> s@ == decode_utf8(bytes@),
{
    String::from_utf8(bytes).ok()
}

/// The sessions of a captured output stream of the status listing, or the
/// error that reading it ends in.
pub open spec fn listing_of(bytes: Seq<u8>) -> Result<Seq<ServerView>, LauncherError> {
    if valid_utf8(bytes) {
        sessions_of(status_records(decode_utf8(bytes)))
    } else {
        Err(LauncherError::InvalidUtf8)
    }
}

/// The sessions that a captured output stream of the status listing holds;
/// an error where the bytes are not UTF-8.
pub fn parse_output(bytes: Vec<u8>) -> (r: Result<Vec<Server>, LauncherError>)
    ensures
        match r {
            Ok(v) => listing_of(bytes@) == Ok::<Seq<ServerView>, LauncherError>(views(v@)),
            Err(e) => listing_of(bytes@) == Err::<Seq<ServerView>, LauncherError>(e),
        },
        !valid_utf8(bytes@) ==> r == Err::<Vec<Server>, LauncherError>(LauncherError::InvalidUtf8),
        valid_utf8(bytes@) ==> match r {
            Ok(v) => sessions_of(status_records(decode_utf8(bytes@))) == Ok::<
                Seq<ServerView>,
                LauncherError,
            >(views(v@)),
            Err(e) => sessions_of(status_records(decode_utf8(bytes@))) == Err::<
                Seq<ServerView>,
                LauncherError,
            >(e),
        },
{
    match utf8_text(bytes) {
        Some(text) => parse_text(text.as_str()),
        None => Err(LauncherError::InvalidUtf8),
    }
}

} // verus!
