//! Laws of the status listing: which lines it passes over, and that the
//! listing rebuilt from its records reads back to the same records.
use vstd::prelude::*;
use crate::status::{
    fields, lemma_records_push, link_of, next_sep, record_of, records_of, sep_at, sessions_of, status_records,
    HTTP_PREFIX, LIST_TAG,
};
use crate::text::{is_space, split_on, starts_with, trim, trim_end, trim_start};

verus! {

/// The line that lists the record `r`.
pub open spec fn status_line(r: (Seq<char>, Seq<char>)) -> Seq<char> {
    r.0 + seq![' ', ':', ':', ' '] + r.1
}

/// A listing with one line per record of `recs`, each ended by a newline.
pub open spec fn render(recs: Seq<(Seq<char>, Seq<char>)>) -> Seq<char>
    decreases recs.len(),
{
    if recs.len() == 0 {
        seq![]
    } else {
        render(recs.drop_last()) + status_line(recs.last()).push('\n')
    }
}

pub open spec fn no_sep(s: Seq<char>) -> bool {
    forall|j: int| !#[trigger] sep_at(s, j)
}

pub open spec fn no_newline(s: Seq<char>) -> bool {
    forall|j: int| 0 <= j < s.len() ==> #[trigger] s[j] != '\n'
}

/// Holds neither the separator nor a newline.
pub open spec fn plain(s: Seq<char>) -> bool {
    no_sep(s) && no_newline(s)
}

/// Neither begins nor ends with whitespace.
pub open spec fn bare(s: Seq<char>) -> bool {
    s.len() == 0 || (!is_space(s[0]) && !is_space(s.last()))
}

/// What every record that a listing yields is like.
pub open spec fn clean_record(r: (Seq<char>, Seq<char>)) -> bool {
    plain(r.0) && bare(r.0) && plain(r.1) && bare(r.1)
}

proof fn lemma_plain_sub(s: Seq<char>, a: int, b: int)
    requires
        plain(s),
        0 <= a <= b <= s.len(),
    ensures
        plain(s.subrange(a, b)),
{
    let t = s.subrange(a, b);
    assert forall|j: int| !#[trigger] sep_at(t, j) by {
        if sep_at(t, j) {
            assert(sep_at(s, a + j));
        }
    }
    assert forall|j: int| 0 <= j < t.len() implies #[trigger] t[j] != '\n' by {
        assert(t[j] == s[a + j]);
    }
}

proof fn lemma_trim_start_plain(s: Seq<char>)
    requires
        plain(s),
    ensures
        plain(trim_start(s)),
        trim_start(s).len() == 0 || !is_space(trim_start(s)[0]),
    decreases s.len(),
{
    if s.len() > 0 && is_space(s[0]) {
        assert(s.drop_first() =~= s.subrange(1, s.len() as int));
        lemma_plain_sub(s, 1, s.len() as int);
        lemma_trim_start_plain(s.drop_first());
    }
}

proof fn lemma_trim_end_plain(t: Seq<char>)
    requires
        plain(t),
    ensures
        plain(trim_end(t)),
        trim_end(t).len() == 0 || !is_space(trim_end(t).last()),
        t.len() > 0 && !is_space(t[0]) ==> trim_end(t).len() > 0 && trim_end(t)[0] == t[0],
    decreases t.len(),
{
    if t.len() > 0 && is_space(t.last()) {
        assert(t.drop_last() =~= t.subrange(0, t.len() - 1));
        lemma_plain_sub(t, 0, t.len() - 1);
        lemma_trim_end_plain(t.drop_last());
    }
}

proof fn lemma_trim_plain(s: Seq<char>)
    requires
        plain(s),
    ensures
        plain(trim(s)),
        bare(trim(s)),
{
    lemma_trim_start_plain(s);
    lemma_trim_end_plain(trim_start(s));
}

/// Where `next_sep` lands, and what it passes over.
proof fn lemma_next_sep(s: Seq<char>, k: int)
    requires
        k >= 0,
    ensures
        next_sep(s, k) matches Some(i) ==> k <= i && sep_at(s, i) && forall|j: int|
            k <= j < i ==> !#[trigger] sep_at(s, j),
        next_sep(s, k) is None ==> forall|j: int| k <= j ==> !#[trigger] sep_at(s, j),
    decreases s.len() - k,
{
    if k + 1 < s.len() && !sep_at(s, k) {
        lemma_next_sep(s, k + 1);
        assert forall|j: int| k <= j && j != k && !(k + 1 <= j) implies !sep_at(s, j) by {}
    }
}

proof fn lemma_split_no_sep(s: Seq<char>, sep: char)
    ensures
        forall|k: int, j: int|
            0 <= k < split_on(s, sep).len() && 0 <= j < split_on(s, sep)[k].len()
                ==> #[trigger] split_on(s, sep)[k][j] != sep,
    decreases s.len(),
{
    crate::text::lemma_split_on_nonempty(s, sep);
    if s.len() > 0 {
        lemma_split_no_sep(s.drop_last(), sep);
        crate::text::lemma_split_on_nonempty(s.drop_last(), sep);
        let prev = split_on(s.drop_last(), sep);
        let cur = split_on(s, sep);
        assert forall|k: int, j: int| 0 <= k < cur.len() && 0 <= j < cur[k].len() implies #[trigger] cur[k][j] != sep by {
            if k < prev.len() - 1 {
                assert(cur[k] == prev[k]);
            } else if k == prev.len() - 1 && s.last() != sep {
                assert(cur[k] == prev[k].push(s.last()));
                if j < prev[k].len() {
                    assert(cur[k][j] == prev[k][j]);
                }
            }
        }
    }
}

/// Every record that a line without a newline yields is clean.
proof fn lemma_record_clean(line: Seq<char>)
    requires
        no_newline(line),
    ensures
        record_of(line) matches Some(r) ==> clean_record(r),
{
    if let Some(r) = record_of(line) {
        let i = next_sep(line, 0)->0;
        lemma_next_sep(line, 0);
        lemma_next_sep(line, i + 2);
        let a = line.take(i);
        let b = line.skip(i + 2);
        assert forall|j: int| !#[trigger] sep_at(a, j) by {
            if sep_at(a, j) {
                assert(sep_at(line, j));
            }
        }
        assert forall|j: int| !#[trigger] sep_at(b, j) by {
            if sep_at(b, j) {
                assert(sep_at(line, j + i + 2));
            }
        }
        assert forall|j: int| 0 <= j < a.len() implies #[trigger] a[j] != '\n' by {
            assert(a[j] == line[j]);
        }
        assert forall|j: int| 0 <= j < b.len() implies #[trigger] b[j] != '\n' by {
            assert(b[j] == line[j + i + 2]);
        }
        lemma_trim_plain(a);
        lemma_trim_plain(b);
        let l = trim(a);
        if starts_with(l, LIST_TAG@) {
            let n = LIST_TAG@.len() as int;
            assert(l.skip(n) =~= l.subrange(n, l.len() as int));
            lemma_plain_sub(l, n, l.len() as int);
            lemma_trim_plain(l.skip(n));
        }
    }
}

proof fn lemma_records_clean(lines: Seq<Seq<char>>)
    requires
        forall|k: int| 0 <= k < lines.len() ==> no_newline(#[trigger] lines[k]),
    ensures
        forall|k: int|
            0 <= k < records_of(lines).len() ==> clean_record(#[trigger] records_of(lines)[k]),
    decreases lines.len(),
{
    if lines.len() > 0 {
        assert(no_newline(lines[lines.len() - 1]));
        lemma_record_clean(lines.last());
        let rest = lines.drop_last();
        assert forall|k: int| 0 <= k < rest.len() implies no_newline(#[trigger] rest[k]) by {
            assert(rest[k] == lines[k]);
        }
        lemma_records_clean(rest);
        let prev = records_of(rest);
        let all = records_of(lines);
        assert forall|k: int| 0 <= k < all.len() implies clean_record(#[trigger] all[k]) by {
            if k < prev.len() {
                assert(all[k] == prev[k]);
            }
        }
    }
}

/// Every record of a listing is clean.
proof fn lemma_status_records_clean(text: Seq<char>)
    ensures
        forall|k: int|
            0 <= k < status_records(text).len() ==> clean_record(
                #[trigger] status_records(text)[k],
            ),
{
    let lines = split_on(text, '\n');
    lemma_split_no_sep(text, '\n');
    assert forall|k: int| 0 <= k < lines.len() implies no_newline(#[trigger] lines[k]) by {
        assert forall|j: int| 0 <= j < lines[k].len() implies #[trigger] lines[k][j] != '\n' by {
            assert(split_on(text, '\n')[k][j] != '\n');
        }
    }
    lemma_records_clean(lines);
}

/// Splitting `a + b`, where `b` holds no separator, extends the last piece of `a`.
proof fn lemma_split_extend(a: Seq<char>, b: Seq<char>, sep: char)
    requires
        forall|j: int| 0 <= j < b.len() ==> #[trigger] b[j] != sep,
    ensures
        split_on(a + b, sep) == split_on(a, sep).drop_last().push(split_on(a, sep).last() + b),
    decreases b.len(),
{
    crate::text::lemma_split_on_nonempty(a, sep);
    let sa = split_on(a, sep);
    if b.len() == 0 {
        assert(a + b =~= a);
        assert(sa.last() + b =~= sa.last());
        assert(sa =~= sa.drop_last().push(sa.last()));
    } else {
        let b0 = b.drop_last();
        lemma_split_extend(a, b0, sep);
        assert((a + b).drop_last() =~= a + b0);
        assert((a + b).last() == b.last());
        assert((sa.last() + b0).push(b.last()) =~= sa.last() + b);
        let p = split_on(a + b0, sep);
        assert(p.drop_last() =~= sa.drop_last());
        assert(split_on(a + b, sep) == p.drop_last().push(p.last().push(b.last())));
        assert(split_on(a + b, sep) =~= sa.drop_last().push(sa.last() + b));
    }
}

proof fn lemma_split_push_sep(a: Seq<char>, sep: char)
    ensures
        split_on(a.push(sep), sep) == split_on(a, sep).push(Seq::<char>::empty()),
{
    assert(a.push(sep).drop_last() =~= a);
}

/// The lines of a rendered listing are the records' lines, then an empty one.
proof fn lemma_render_lines(recs: Seq<(Seq<char>, Seq<char>)>)
    requires
        forall|k: int| 0 <= k < recs.len() ==> no_newline(status_line(#[trigger] recs[k])),
    ensures
        split_on(render(recs), '\n') == recs.map_values(|r: (Seq<char>, Seq<char>)| status_line(r)).push(
            Seq::<char>::empty(),
        ),
    decreases recs.len(),
{
    if recs.len() == 0 {
        assert(render(recs) =~= Seq::<char>::empty());
        assert(recs.map_values(|r: (Seq<char>, Seq<char>)| status_line(r)).push(Seq::<char>::empty())
            =~= seq![Seq::<char>::empty()]);
    } else {
        let rest = recs.drop_last();
        assert forall|k: int| 0 <= k < rest.len() implies no_newline(status_line(#[trigger] rest[k])) by {
            assert(rest[k] == recs[k]);
        }
        lemma_render_lines(rest);
        let line = status_line(recs.last());
        assert(no_newline(status_line(recs[recs.len() - 1])));
        assert forall|j: int| 0 <= j < line.len() implies #[trigger] line[j] != '\n' by {}
        lemma_split_extend(render(rest), line, '\n');
        assert(render(recs) =~= (render(rest) + line).push('\n'));
        lemma_split_push_sep(render(rest) + line, '\n');
        let m = rest.map_values(|r: (Seq<char>, Seq<char>)| status_line(r));
        assert(m.push(Seq::<char>::empty()).drop_last() =~= m);
        assert(Seq::<char>::empty() + line =~= line);
        assert(recs.map_values(|r: (Seq<char>, Seq<char>)| status_line(r)) =~= m.push(line));
    }
}

/// A clean record whose link begins with `http` reads back from its line.
proof fn lemma_line_reads_back(r: (Seq<char>, Seq<char>))
    requires
        clean_record(r),
        starts_with(r.0, HTTP_PREFIX@),
    ensures
        record_of(status_line(r)) == Some(r),
{
    reveal_strlit("http");
    reveal_strlit("[JupyterServerListApp]");
    let link = r.0;
    let folder = r.1;
    let line = status_line(r);
    let n = link.len() as int;
    assert(link.take(4) == HTTP_PREFIX@);
    assert(link[0] == 'h') by {
        assert(link.take(4)[0] == link[0]);
    }
    assert(line.take(4) =~= link.take(4));
    assert(sep_at(line, n + 1));
    assert forall|j: int| 0 <= j < n + 1 implies !#[trigger] sep_at(line, j) by {
        if j + 1 < n {
            if sep_at(line, j) {
                assert(sep_at(link, j));
            }
        }
    }
    lemma_next_sep(line, 0);
    assert(next_sep(line, 0) == Some(n + 1));
    assert forall|j: int| n + 3 <= j implies !#[trigger] sep_at(line, j) by {
        if j >= n + 4 && sep_at(line, j) {
            assert(sep_at(folder, j - n - 4));
        }
    }
    lemma_next_sep(line, n + 3);
    assert(next_sep(line, n + 3) is None);
    assert(fields(line) == Some((line.take(n + 1), line.skip(n + 3))));
    assert(line.take(n + 1) =~= link.push(' '));
    assert(line.skip(n + 3) =~= seq![' '] + folder);
    // the link's line trims back to the link, and holds no tag
    assert(trim_start(link.push(' ')) == link.push(' '));
    assert(link.push(' ').drop_last() =~= link);
    assert(trim_end(link.push(' ')) == trim_end(link));
    assert(trim_end(link) == link);
    assert(!starts_with(link, LIST_TAG@)) by {
        if starts_with(link, LIST_TAG@) {
            assert(link.take(LIST_TAG@.len() as int)[0] == link[0]);
        }
    }
    assert(link_of(link.push(' ')) == link);
    // the folder's field trims back to the folder
    let f = seq![' '] + folder;
    assert(f.drop_first() =~= folder);
    assert(trim_start(f) == trim_start(folder));
    if folder.len() > 0 {
        assert(trim_start(folder) == folder);
        assert(trim_end(folder) == folder);
    } else {
        assert(trim_start(folder) == folder);
        assert(trim_end(folder) == folder);
    }
    assert(trim(f) == folder);
}

proof fn lemma_records_of_lines(recs: Seq<(Seq<char>, Seq<char>)>)
    requires
        forall|k: int|
            0 <= k < recs.len() ==> clean_record(#[trigger] recs[k]) && starts_with(
                recs[k].0,
                HTTP_PREFIX@,
            ),
    ensures
        records_of(recs.map_values(|r: (Seq<char>, Seq<char>)| status_line(r))) == recs,
    decreases recs.len(),
{
    let m = recs.map_values(|r: (Seq<char>, Seq<char>)| status_line(r));
    if recs.len() == 0 {
        assert(records_of(m) =~= recs);
    } else {
        let rest = recs.drop_last();
        assert forall|k: int| 0 <= k < rest.len() implies clean_record(#[trigger] rest[k])
            && starts_with(rest[k].0, HTTP_PREFIX@) by {
            assert(rest[k] == recs[k]);
        }
        lemma_records_of_lines(rest);
        assert(clean_record(recs[recs.len() - 1]));
        lemma_line_reads_back(recs.last());
        assert(m.drop_last() =~= rest.map_values(|r: (Seq<char>, Seq<char>)| status_line(r)));
        assert(rest.push(recs.last()) =~= recs);
    }
}

/// The lines `ls` joined by newlines.
pub open spec fn join_lines(ls: Seq<Seq<char>>) -> Seq<char>
    decreases ls.len(),
{
    if ls.len() == 0 {
        seq![]
    } else if ls.len() == 1 {
        ls[0]
    } else {
        join_lines(ls.drop_last()) + seq!['\n'] + ls.last()
    }
}

/// Lines without newlines, joined by newlines, split back into themselves.
proof fn lemma_split_join(ls: Seq<Seq<char>>)
    requires
        ls.len() >= 1,
        forall|k: int| 0 <= k < ls.len() ==> no_newline(#[trigger] ls[k]),
    ensures
        split_on(join_lines(ls), '\n') == ls,
    decreases ls.len(),
{
    let last = ls.last();
    assert(no_newline(ls[ls.len() - 1]));
    assert forall|j: int| 0 <= j < last.len() implies #[trigger] last[j] != '\n' by {}
    if ls.len() == 1 {
        lemma_split_extend(Seq::<char>::empty(), last, '\n');
        assert(Seq::<char>::empty() + last =~= last);
        assert(split_on(Seq::<char>::empty(), '\n') =~= seq![Seq::<char>::empty()]);
        assert(ls =~= seq![last]);
    } else {
        let rest = ls.drop_last();
        assert forall|k: int| 0 <= k < rest.len() implies no_newline(#[trigger] rest[k]) by {
            assert(rest[k] == ls[k]);
        }
        lemma_split_join(rest);
        let head = join_lines(rest).push('\n');
        assert(join_lines(ls) =~= head + last);
        lemma_split_extend(head, last, '\n');
        lemma_split_push_sep(join_lines(rest), '\n');
        assert(rest.push(Seq::<char>::empty()).drop_last() =~= rest);
        assert(Seq::<char>::empty() + last =~= last);
        assert(rest.push(last) =~= ls);
    }
}

proof fn lemma_records_insert(lines: Seq<Seq<char>>, i: int, line: Seq<char>)
    requires
        0 <= i <= lines.len(),
        record_of(line) is None,
    ensures
        records_of(lines.insert(i, line)) == records_of(lines),
    decreases lines.len(),
{
    if i == lines.len() {
        assert(lines.insert(i, line) =~= lines.push(line));
        lemma_records_push(lines, line);
    } else {
        let rest = lines.drop_last();
        lemma_records_insert(rest, i, line);
        assert(lines.insert(i, line) =~= rest.insert(i, line).push(lines.last()));
        lemma_records_push(rest.insert(i, line), lines.last());
        lemma_records_push(rest, lines.last());
        assert(rest.push(lines.last()) =~= lines);
    }
}

/// Inserting, anywhere among the lines of a listing, a line that begins with
/// neither `http` nor the listing tag, or that does not split on `::` into
/// exactly two fields, adds no record and no error: the records, the
/// sessions, and their order stay as they were.
pub proof fn lemma_unlisted_line_ignored(lines: Seq<Seq<char>>, i: int, line: Seq<char>)
    requires
        lines.len() >= 1,
        forall|k: int| 0 <= k < lines.len() ==> no_newline(#[trigger] lines[k]),
        no_newline(line),
        0 <= i <= lines.len(),
        !(starts_with(line, HTTP_PREFIX@) || starts_with(line, LIST_TAG@)) || fields(line) is None,
    ensures
        record_of(line) is None,
        status_records(join_lines(lines.insert(i, line))) == status_records(join_lines(lines)),
        sessions_of(status_records(join_lines(lines.insert(i, line)))) == sessions_of(
            status_records(join_lines(lines)),
        ),
{
    let more = lines.insert(i, line);
    assert forall|k: int| 0 <= k < more.len() implies no_newline(#[trigger] more[k]) by {
        if k < i {
            assert(more[k] == lines[k]);
        } else if k > i {
            assert(more[k] == lines[k - 1]);
        }
    }
    lemma_split_join(lines);
    lemma_split_join(more);
    lemma_records_insert(lines, i, line);
}

/// Rebuilding a listing from its records, one `<link> :: <folder>` line each,
/// and reading it again gives the same records, and so the same sessions,
/// wherever every link begins with `http`.
pub proof fn lemma_status_round_trip(text: Seq<char>)
    requires
        forall|k: int|
            0 <= k < status_records(text).len() ==> starts_with(
                #[trigger] status_records(text)[k].0,
                HTTP_PREFIX@,
            ),
    ensures
        status_records(render(status_records(text))) == status_records(text),
        sessions_of(status_records(render(status_records(text)))) == sessions_of(
            status_records(text),
        ),
{
    let recs = status_records(text);
    lemma_status_records_clean(text);
    assert forall|k: int| 0 <= k < recs.len() implies no_newline(status_line(#[trigger] recs[k])) by {
        let r = recs[k];
        assert(clean_record(r));
        let l = status_line(r);
        assert forall|j: int| 0 <= j < l.len() implies #[trigger] l[j] != '\n' by {
            if j < r.0.len() {
                assert(l[j] == r.0[j]);
            } else if j >= r.0.len() + 4 {
                assert(l[j] == r.1[j - r.0.len() - 4]);
            }
        }
    }
    lemma_render_lines(recs);
    let m = recs.map_values(|r: (Seq<char>, Seq<char>)| status_line(r));
    crate::status::lemma_records_push_empty(m);
    lemma_records_of_lines(recs);
}

} // verus!
