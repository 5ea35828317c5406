//! Normalisation of the SDP answers that browsers send.
//!
//! Firefox may give its ICE credentials at media level only. They are copied
//! to session level, where the WebRTC stack looks for them, and every line is
//! ended with CRLF.

use crate::text::{chars_of, contains_text, occurs_at, occurs_in, push_chars};
use vstd::prelude::*;

verus! {

/// A line of an SDP text, without its line break.
pub type Line = Seq<char>;

pub open spec fn is_line_break(c: char) -> bool {
    c == '\r' || c == '\n'
}

/// The lines of `s`: its maximal runs of characters that are no line breaks.
pub open spec fn sdp_lines(s: Seq<char>) -> Seq<Line>
    decreases s.len(),
{
    if s.len() == 0 {
        seq![]
    } else {
        let before = sdp_lines(s.drop_last());
        if is_line_break(s.last()) {
            before
        } else if s.len() == 1 || is_line_break(s[s.len() - 2]) {
            before.push(seq![s.last()])
        } else {
            before.drop_last().push(before.last().push(s.last()))
        }
    }
}

/// CR LF.
pub open spec fn crlf() -> Seq<char> {
    seq!['\r', '\n']
}

/// Each line followed by CRLF.
pub open spec fn terminated(lines: Seq<Line>) -> Seq<char>
    decreases lines.len(),
{
    if lines.len() == 0 {
        seq![]
    } else {
        terminated(lines.drop_last()) + lines.last() + crlf()
    }
}

/// The text of `lines`: joined by CRLF, with a CRLF at the end.
pub open spec fn sdp_text(lines: Seq<Line>) -> Seq<char> {
    if lines.len() == 0 {
        crlf()
    } else {
        terminated(lines)
    }
}

/// The index of the first line, from `from` on, that starts with `prefix`, or
/// the number of lines if there is none.
pub open spec fn first_at(lines: Seq<Line>, prefix: Seq<char>, from: int) -> int
    decreases lines.len() - from,
{
    if from >= lines.len() {
        lines.len() as int
    } else if prefix.is_prefix_of(lines[from]) {
        from
    } else {
        first_at(lines, prefix, from + 1)
    }
}

/// Where the first media section begins: everything before is session level.
pub open spec fn media_start(lines: Seq<Line>) -> int {
    first_at(lines, "m="@, 0)
}

/// Where the first media section ends.
pub open spec fn media_end(lines: Seq<Line>) -> int {
    first_at(lines, "m="@, media_start(lines) + 1)
}

/// The lines at session level.
pub open spec fn session_lines(lines: Seq<Line>) -> Seq<Line> {
    lines.take(media_start(lines))
}

/// The lines of the first media section.
pub open spec fn first_media_lines(lines: Seq<Line>) -> Seq<Line> {
    lines.subrange(media_start(lines), media_end(lines))
}

/// Whether some line starts with `prefix`.
pub open spec fn has_attribute(lines: Seq<Line>, prefix: Seq<char>) -> bool {
    exists|i: int| 0 <= i < lines.len() && prefix.is_prefix_of(#[trigger] lines[i])
}

/// What is copied to session level for one attribute: nothing if the session
/// has it or the first media section lacks it, else the section's first line
/// with it.
pub open spec fn promoted(lines: Seq<Line>, prefix: Seq<char>) -> Seq<Line> {
    let section = first_media_lines(lines);
    let at = first_at(section, prefix, 0);
    if has_attribute(session_lines(lines), prefix) || at >= section.len() {
        seq![]
    } else {
        seq![section[at]]
    }
}

/// The lines with the ICE credentials at session level.
pub open spec fn normalized_lines(lines: Seq<Line>) -> Seq<Line> {
    session_lines(lines) + promoted(lines, "a=ice-ufrag:"@) + promoted(lines, "a=ice-pwd:"@)
        + lines.skip(media_start(lines))
}

/// What `normalize_remote_answer_sdp` returns for `sdp`.
pub open spec fn normalized(sdp: Seq<char>) -> Seq<char> {
    sdp_text(normalized_lines(sdp_lines(sdp)))
}

/// The views of the elements of `lines`.
pub open spec fn line_views(lines: Seq<Vec<char>>) -> Seq<Line> {
    lines.map_values(|line: Vec<char>| line@)
}

proof fn lemma_first_at_bounds(lines: Seq<Line>, prefix: Seq<char>, from: int)
    requires
        0 <= from,
    ensures
        from <= lines.len() ==> from <= first_at(lines, prefix, from) <= lines.len(),
        from >= lines.len() ==> first_at(lines, prefix, from) == lines.len(),
        forall|i: int|
            from <= i < first_at(lines, prefix, from) && i < lines.len()
                ==> !prefix.is_prefix_of(#[trigger] lines[i]),
        first_at(lines, prefix, from) < lines.len() ==> prefix.is_prefix_of(
            lines[first_at(lines, prefix, from)],
        ),
    decreases lines.len() - from,
{
    if from < lines.len() && !prefix.is_prefix_of(lines[from]) {
        lemma_first_at_bounds(lines, prefix, from + 1);
    }
}

/// Splits a text into its lines.
fn split_lines(sdp: &str) -> (lines: Vec<Vec<char>>)
    ensures
        line_views(lines@) == sdp_lines(sdp@),
{
    let chars = chars_of(sdp);
    let mut lines: Vec<Vec<char>> = Vec::new();
    let mut line: Vec<char> = Vec::new();
    assert(chars@.take(0) =~= seq![]);
    for i in 0..chars.len()
        invariant
            ({
                let done = sdp_lines(chars@.take(i as int));
                let open = i > 0 && !is_line_break(chars@[i - 1]);
                &&& open <==> line@.len() > 0
                &&& if open {
                    done == line_views(lines@).push(line@)
                } else {
                    done == line_views(lines@)
                }
            }),
    {
        let c = chars[i];
        let ghost before = chars@.take(i as int);
        let ghost now = chars@.take(i + 1);
        assert(now.drop_last() == before);
        if c == '\r' || c == '\n' {
            if line.len() > 0 {
                let ghost had = line_views(lines@);
                lines.push(line);
                line = Vec::new();
                assert(line_views(lines@) == had.push(lines@.last()@));
            }
        } else {
            let ghost had = line@;
            line.push(c);
            assert(line_views(lines@).push(had).drop_last() == line_views(lines@));
            assert(i == 0 || is_line_break(chars@[i - 1]) ==> line@ == seq![c]);
        }
    }
    assert(chars@.take(chars@.len() as int) == chars@);
    if line.len() > 0 {
        let ghost had = line_views(lines@);
        lines.push(line);
        assert(line_views(lines@) == had.push(lines@.last()@));
    }
    lines
}

fn starts_with(line: &Vec<char>, prefix: &Vec<char>) -> (yes: bool)
    ensures
        yes == prefix@.is_prefix_of(line@),
{
    if line.len() < prefix.len() {
        return false;
    }
    for i in 0..prefix.len()
        invariant
            prefix@.len() <= line@.len(),
            forall|j: int| 0 <= j < i ==> prefix@[j] == line@[j],
    {
        if line[i] != prefix[i] {
            assert(line@.subrange(0, prefix@.len() as int)[i as int] != prefix@[i as int]);
            return false;
        }
    }
    assert(line@.subrange(0, prefix@.len() as int) =~= prefix@);
    true
}

/// The index of the first line in `from..to` that starts with `prefix`, or
/// `to`.
fn find_line(lines: &Vec<Vec<char>>, prefix: &Vec<char>, from: usize, to: usize) -> (at: usize)
    requires
        from <= to <= lines@.len(),
    ensures
        at == first_at(line_views(lines@).take(to as int), prefix@, from as int),
        from <= at <= to,
{
    let ghost views = line_views(lines@).take(to as int);
    let mut at: usize = from;
    while at < to
        invariant
            from <= at <= to <= lines@.len(),
            views == line_views(lines@).take(to as int),
            first_at(views, prefix@, from as int) == first_at(views, prefix@, at as int),
        decreases to - at,
    {
        if starts_with(&lines[at], prefix) {
            return at;
        }
        at = at + 1;
    }
    at
}

proof fn lemma_first_at_shift(lines: Seq<Line>, prefix: Seq<char>, start: int, end: int, from: int)
    requires
        0 <= start <= end <= lines.len(),
        0 <= from <= end - start,
    ensures
        first_at(lines.subrange(start, end), prefix, from) + start == first_at(
            lines.take(end),
            prefix,
            start + from,
        ),
    decreases end - start - from,
{
    if from < end - start {
        lemma_first_at_shift(lines, prefix, start, end, from + 1);
    }
}

proof fn lemma_has_attribute(lines: Seq<Line>, prefix: Seq<char>)
    ensures
        has_attribute(lines, prefix) <==> first_at(lines, prefix, 0) < lines.len(),
{
    lemma_first_at_bounds(lines, prefix, 0);
    let at = first_at(lines, prefix, 0);
    if at < lines.len() {
        assert(prefix.is_prefix_of(lines[at]));
    }
}

proof fn lemma_media_bounds(lines: Seq<Line>)
    ensures
        0 <= media_start(lines) <= media_end(lines) <= lines.len(),
        media_start(lines) < lines.len() ==> media_start(lines) < media_end(lines),
{
    lemma_first_at_bounds(lines, "m="@, 0);
    lemma_first_at_bounds(lines, "m="@, media_start(lines) + 1);
}

/// Appends a line and CRLF.
fn push_line(out: &mut String, line: &Vec<char>)
    ensures
        final(out)@ == old(out)@ + line@ + crlf(),
{
    push_chars(out, line);
    out.push('\r');
    out.push('\n');
    assert(out@ =~= old(out)@ + line@ + crlf());
}

proof fn lemma_terminated_push(lines: Seq<Line>, line: Line)
    ensures
        terminated(lines.push(line)) == terminated(lines) + line + crlf(),
{
    assert(lines.push(line).drop_last() == lines);
}

/// Appends the lines `from..to`, each with CRLF.
fn push_lines(
    out: &mut String,
    lines: &Vec<Vec<char>>,
    from: usize,
    to: usize,
    Ghost(done): Ghost<Seq<Line>>,
)
    requires
        from <= to <= lines@.len(),
        old(out)@ == terminated(done),
    ensures
        final(out)@ == terminated(done + line_views(lines@).subrange(from as int, to as int)),
{
    let ghost views = line_views(lines@);
    assert(done + views.subrange(from as int, from as int) =~= done);
    for i in from..to
        invariant
            from <= to <= lines@.len(),
            views == line_views(lines@),
            out@ == terminated(done + views.subrange(from as int, i as int)),
    {
        push_line(out, &lines[i]);
        proof {
            let ghost had = done + views.subrange(from as int, i as int);
            lemma_terminated_push(had, views[i as int]);
            assert(had.push(views[i as int]) =~= done + views.subrange(from as int, i + 1));
        }
    }
}

/// Finds the line to copy to session level for one attribute.
fn find_promoted(
    lines: &Vec<Vec<char>>,
    prefix: &Vec<char>,
    start: usize,
    end: usize,
) -> (found: Option<usize>)
    requires
        start == media_start(line_views(lines@)),
        end == media_end(line_views(lines@)),
    ensures
        match found {
            Some(at) => at < lines@.len() && promoted(line_views(lines@), prefix@) == seq![
                lines@[at as int]@,
            ],
            None => promoted(line_views(lines@), prefix@) == Seq::<Line>::empty(),
        },
{
    let ghost views = line_views(lines@);
    proof {
        lemma_media_bounds(views);
        lemma_has_attribute(views.take(start as int), prefix@);
        lemma_first_at_shift(views, prefix@, start as int, end as int, 0);
    }
    if find_line(lines, prefix, 0, start) < start {
        return None;
    }
    let at = find_line(lines, prefix, start, end);
    if at < end {
        Some(at)
    } else {
        None
    }
}

/// Rewrites a browser's SDP answer so that every line ends with CRLF, empty
/// lines are gone, and ICE credentials which only the first media section
/// carries also stand at session level, directly before that section.
pub fn normalize_remote_answer_sdp(sdp: &str) -> (normal: String)
    ensures
        normal@ == normalized(sdp@),
{
    let lines = split_lines(sdp);
    let count = lines.len();
    let media = chars_of("m=");
    let ghost views = line_views(lines@);
    let start = find_line(&lines, &media, 0, count);
    let end = if start < count {
        find_line(&lines, &media, start + 1, count)
    } else {
        count
    };
    assert(views.take(count as int) == views);
    let ufrag = find_promoted(&lines, &chars_of("a=ice-ufrag:"), start, end);
    let pwd = find_promoted(&lines, &chars_of("a=ice-pwd:"), start, end);
    let mut out = String::new();
    if count == 0 {
        out.push('\r');
        out.push('\n');
        assert(out@ =~= crlf());
        assert(normalized_lines(views) =~= seq![]);
        return out;
    }
    let ghost mut done: Seq<Line> = seq![];
    push_lines(&mut out, &lines, 0, start, Ghost(done));
    proof {
        done = done + views.subrange(0, start as int);
        assert(done =~= session_lines(views));
    }
    if let Some(at) = ufrag {
        push_line(&mut out, &lines[at]);
        proof {
            lemma_terminated_push(done, views[at as int]);
        }
    }
    proof {
        let grown = done + promoted(views, "a=ice-ufrag:"@);
        assert(ufrag is Some ==> grown =~= done.push(views[ufrag->0 as int]));
        assert(ufrag is None ==> grown =~= done);
        done = grown;
    }
    if let Some(at) = pwd {
        push_line(&mut out, &lines[at]);
        proof {
            lemma_terminated_push(done, views[at as int]);
        }
    }
    proof {
        let grown = done + promoted(views, "a=ice-pwd:"@);
        assert(pwd is Some ==> grown =~= done.push(views[pwd->0 as int]));
        assert(pwd is None ==> grown =~= done);
        done = grown;
    }
    push_lines(&mut out, &lines, start, count, Ghost(done));
    assert(done + views.subrange(start as int, count as int) =~= normalized_lines(views));
    out
}

/// Whether a line could stand in a text as a line of its own.
pub open spec fn is_clean_line(line: Line) -> bool {
    &&& line.len() > 0
    &&& forall|i: int| 0 <= i < line.len() ==> !is_line_break(#[trigger] line[i])
}

/// Lines are never empty and hold no line break.
pub proof fn lemma_lines_are_clean(s: Seq<char>)
    ensures
        forall|i: int| 0 <= i < sdp_lines(s).len() ==> is_clean_line(#[trigger] sdp_lines(s)[i]),
        s.len() > 0 && !is_line_break(s.last()) ==> sdp_lines(s).len() > 0,
    decreases s.len(),
{
    if s.len() > 0 {
        let before = s.drop_last();
        lemma_lines_are_clean(before);
        let c = s.last();
        if is_line_break(c) {
        } else if s.len() == 1 || is_line_break(s[s.len() - 2]) {
            assert(is_clean_line(seq![c]));
        } else {
            assert(before.last() == s[s.len() - 2]);
            let last = sdp_lines(before).last();
            assert(is_clean_line(last));
            assert(is_clean_line(last.push(c)));
        }
    }
}

proof fn lemma_append_line(s: Seq<char>, line: Line)
    requires
        s.len() == 0 || is_line_break(s.last()),
        is_clean_line(line),
    ensures
        sdp_lines(s + line) == sdp_lines(s).push(line),
    decreases line.len(),
{
    let whole = s + line;
    let c = line.last();
    assert(whole.drop_last() =~= s + line.drop_last());
    if line.len() == 1 {
        assert(whole.drop_last() =~= s);
        assert(line =~= seq![c]);
    } else {
        assert(is_clean_line(line.drop_last()));
        lemma_append_line(s, line.drop_last());
        assert(whole[whole.len() - 2] == line[line.len() - 2]);
        let before = sdp_lines(s + line.drop_last());
        assert(before.drop_last() =~= sdp_lines(s));
        assert(before.last().push(c) =~= line);
    }
}

proof fn lemma_append_crlf(s: Seq<char>)
    ensures
        sdp_lines(s + crlf()) == sdp_lines(s),
        is_line_break((s + crlf()).last()),
{
    let whole = s + crlf();
    assert(whole.drop_last() =~= s.push('\r'));
    assert(s.push('\r').drop_last() =~= s);
    assert(sdp_lines(s.push('\r')) == sdp_lines(s));
}

proof fn lemma_terminated_lines(lines: Seq<Line>)
    requires
        forall|i: int| 0 <= i < lines.len() ==> is_clean_line(#[trigger] lines[i]),
    ensures
        sdp_lines(terminated(lines)) == lines,
        lines.len() > 0 ==> terminated(lines).len() > 0 && is_line_break(terminated(lines).last()),
    decreases lines.len(),
{
    if lines.len() > 0 {
        let before = lines.drop_last();
        lemma_terminated_lines(before);
        lemma_append_line(terminated(before), lines.last());
        lemma_append_crlf(terminated(before) + lines.last());
        assert(before.push(lines.last()) =~= lines);
    }
}

/// Splitting a text into lines gives back the lines that it was written from.
pub proof fn law_lines_of_text(lines: Seq<Line>)
    requires
        forall|i: int| 0 <= i < lines.len() ==> is_clean_line(#[trigger] lines[i]),
    ensures
        sdp_lines(sdp_text(lines)) == lines,
{
    if lines.len() == 0 {
        lemma_append_crlf(seq![]);
        assert(Seq::<char>::empty() + crlf() =~= crlf());
        assert(lines =~= seq![]);
    } else {
        lemma_terminated_lines(lines);
    }
}

proof fn lemma_first_at_is(lines: Seq<Line>, prefix: Seq<char>, from: int, at: int)
    requires
        0 <= from <= at <= lines.len(),
        forall|i: int| from <= i < at ==> !prefix.is_prefix_of(#[trigger] lines[i]),
        at == lines.len() || prefix.is_prefix_of(lines[at]),
    ensures
        first_at(lines, prefix, from) == at,
    decreases at - from,
{
    if from < at {
        lemma_first_at_is(lines, prefix, from + 1, at);
    }
}

proof fn lemma_promoted_line(lines: Seq<Line>, prefix: Seq<char>)
    requires
        prefix == "a=ice-ufrag:"@ || prefix == "a=ice-pwd:"@,
    ensures
        promoted(lines, prefix).len() <= 1,
        promoted(lines, prefix).len() == 1 ==> {
            let line = promoted(lines, prefix)[0];
            &&& prefix.is_prefix_of(line)
            &&& !"m="@.is_prefix_of(line)
            &&& first_media_lines(lines).contains(line)
        },
{
    let section = first_media_lines(lines);
    lemma_first_at_bounds(section, prefix, 0);
    if promoted(lines, prefix).len() == 1 {
        let line = promoted(lines, prefix)[0];
        let at = first_at(section, prefix, 0);
        assert(line == section[at]);
        reveal_strlit("a=ice-ufrag:");
        reveal_strlit("a=ice-pwd:");
        reveal_strlit("m=");
        assert(prefix[0] == 'a');
        assert(line.subrange(0, prefix.len() as int)[0] == line[0]);
        if "m="@.is_prefix_of(line) {
            assert(line.subrange(0, 2)[0] == line[0]);
        }
    }
}

/// The number of lines that `normalized_lines` adds.
pub open spec fn promoted_count(lines: Seq<Line>) -> int {
    (promoted(lines, "a=ice-ufrag:"@) + promoted(lines, "a=ice-pwd:"@)).len() as int
}

/// The media level of an answer, from the first media line on, is kept as it
/// is, and so is the session level, to which at most two lines are added.
pub proof fn law_media_level_is_kept(lines: Seq<Line>)
    ensures
        promoted_count(lines) <= 2,
        media_start(normalized_lines(lines)) == media_start(lines) + promoted_count(lines),
        media_end(normalized_lines(lines)) == media_end(lines) + promoted_count(lines),
        normalized_lines(lines).skip(media_start(normalized_lines(lines))) == lines.skip(
            media_start(lines),
        ),
        first_media_lines(normalized_lines(lines)) == first_media_lines(lines),
        session_lines(lines).is_prefix_of(session_lines(normalized_lines(lines))),
        session_lines(normalized_lines(lines)) == session_lines(lines) + promoted(
            lines,
            "a=ice-ufrag:"@,
        ) + promoted(lines, "a=ice-pwd:"@),
{
    let m = "m="@;
    let ufrag = promoted(lines, "a=ice-ufrag:"@);
    let pwd = promoted(lines, "a=ice-pwd:"@);
    let session = session_lines(lines);
    let start = media_start(lines);
    let end = media_end(lines);
    let k = promoted_count(lines);
    let new = normalized_lines(lines);
    lemma_media_bounds(lines);
    lemma_first_at_bounds(lines, m, 0);
    lemma_first_at_bounds(lines, m, start + 1);
    lemma_promoted_line(lines, "a=ice-ufrag:"@);
    lemma_promoted_line(lines, "a=ice-pwd:"@);
    assert forall|i: int| 0 <= i < start + k implies !m.is_prefix_of(#[trigger] new[i]) by {
        if i < start {
            assert(new[i] == lines[i]);
        } else if i < start + ufrag.len() {
            assert(new[i] == ufrag[0]);
        } else {
            assert(new[i] == pwd[0]);
        }
    }
    assert(new.len() == lines.len() + k);
    assert(forall|i: int| start <= i < lines.len() ==> new[i + k] == #[trigger] lines[i]);
    lemma_first_at_is(new, m, 0, start + k);
    if start < lines.len() {
        assert forall|i: int| start + k + 1 <= i < end + k implies !m.is_prefix_of(
            #[trigger] new[i],
        ) by {
            assert(new[i] == lines[i - k]);
        }
        lemma_first_at_is(new, m, start + k + 1, end + k);
    }
    assert(new.skip(start + k) =~= lines.skip(start));
    assert(new.subrange(start + k, end + k) =~= lines.subrange(start, end));
    assert(new.take(start + k) =~= session + ufrag + pwd);
    assert(new.take(start + k).subrange(0, session.len() as int) =~= session);
}

/// After normalisation an ICE credential stands at session level if and only
/// if it stood there before or in the first media section.
pub proof fn law_credentials_reach_session_level(lines: Seq<Line>, prefix: Seq<char>)
    requires
        prefix == "a=ice-ufrag:"@ || prefix == "a=ice-pwd:"@,
    ensures
        has_attribute(session_lines(normalized_lines(lines)), prefix) <==> has_attribute(
            session_lines(lines),
            prefix,
        ) || has_attribute(first_media_lines(lines), prefix),
{
    let new = session_lines(normalized_lines(lines));
    let session = session_lines(lines);
    let ufrag = promoted(lines, "a=ice-ufrag:"@);
    let pwd = promoted(lines, "a=ice-pwd:"@);
    law_media_level_is_kept(lines);
    lemma_media_bounds(lines);
    lemma_has_attribute(first_media_lines(lines), prefix);
    lemma_promoted_line(lines, "a=ice-ufrag:"@);
    lemma_promoted_line(lines, "a=ice-pwd:"@);
    if has_attribute(session, prefix) {
        let i = choose|i: int| 0 <= i < session.len() && prefix.is_prefix_of(#[trigger] session[i]);
        assert(new[i] == session[i]);
    } else if has_attribute(first_media_lines(lines), prefix) {
        let i = if prefix == "a=ice-ufrag:"@ {
            session.len() as int
        } else {
            (session.len() + ufrag.len()) as int
        };
        assert(new[i] == promoted(lines, prefix)[0]);
    } else if has_attribute(new, prefix) {
        let i = choose|i: int| 0 <= i < new.len() && prefix.is_prefix_of(#[trigger] new[i]);
        if i < session.len() {
            assert(session[i] == new[i]);
        } else {
            let line = if i < session.len() + ufrag.len() {
                ufrag[0]
            } else {
                pwd[0]
            };
            assert(new[i] == line);
            assert(first_media_lines(lines).contains(line));
            let j = choose|j: int|
                0 <= j < first_media_lines(lines).len() && first_media_lines(lines)[j] == line;
            assert(prefix.is_prefix_of(first_media_lines(lines)[j]));
        }
    }
}

/// An answer whose session level has both credentials keeps its lines.
pub proof fn law_complete_session_is_kept(lines: Seq<Line>)
    requires
        has_attribute(session_lines(lines), "a=ice-ufrag:"@),
        has_attribute(session_lines(lines), "a=ice-pwd:"@),
    ensures
        normalized_lines(lines) == lines,
{
    lemma_media_bounds(lines);
    assert(normalized_lines(lines) =~= lines);
}

proof fn lemma_normalized_lines_clean(lines: Seq<Line>)
    requires
        forall|i: int| 0 <= i < lines.len() ==> is_clean_line(#[trigger] lines[i]),
    ensures
        forall|i: int|
            0 <= i < normalized_lines(lines).len() ==> is_clean_line(
                #[trigger] normalized_lines(lines)[i],
            ),
{
    let new = normalized_lines(lines);
    let ufrag = promoted(lines, "a=ice-ufrag:"@);
    let pwd = promoted(lines, "a=ice-pwd:"@);
    let start = media_start(lines);
    lemma_media_bounds(lines);
    lemma_first_at_bounds(first_media_lines(lines), "a=ice-ufrag:"@, 0);
    lemma_first_at_bounds(first_media_lines(lines), "a=ice-pwd:"@, 0);
    assert forall|i: int| 0 <= i < new.len() implies is_clean_line(#[trigger] new[i]) by {
        if i < start {
            assert(new[i] == lines[i]);
        } else if i < start + ufrag.len() {
            assert(new[i] == ufrag[0]);
        } else if i < start + ufrag.len() + pwd.len() {
            assert(new[i] == pwd[0]);
        } else {
            assert(new[i] == lines[i - ufrag.len() - pwd.len()]);
        }
    }
}

/// The lines of a normalised answer are the normalised lines of the answer.
pub proof fn law_lines_of_normalized(sdp: Seq<char>)
    ensures
        sdp_lines(normalized(sdp)) == normalized_lines(sdp_lines(sdp)),
{
    lemma_lines_are_clean(sdp);
    lemma_normalized_lines_clean(sdp_lines(sdp));
    law_lines_of_text(normalized_lines(sdp_lines(sdp)));
}

/// The text of a normalised answer has an ICE credential at session level if
/// and only if the answer had it there or in its first media section, and it
/// has the media level of the answer.
pub proof fn law_normalized_answer_has_credentials(sdp: Seq<char>, prefix: Seq<char>)
    requires
        prefix == "a=ice-ufrag:"@ || prefix == "a=ice-pwd:"@,
    ensures
        ({
            let before = sdp_lines(sdp);
            let after = sdp_lines(normalized(sdp));
            &&& has_attribute(session_lines(after), prefix) <==> has_attribute(
                session_lines(before),
                prefix,
            ) || has_attribute(first_media_lines(before), prefix)
            &&& after.skip(media_start(after)) == before.skip(media_start(before))
        }),
{
    law_lines_of_normalized(sdp);
    law_credentials_reach_session_level(sdp_lines(sdp), prefix);
    law_media_level_is_kept(sdp_lines(sdp));
}

/// Normalising a second time changes nothing.
pub proof fn law_normalize_is_idempotent(sdp: Seq<char>)
    ensures
        normalized(normalized(sdp)) == normalized(sdp),
{
    let lines = sdp_lines(sdp);
    let new = normalized_lines(lines);
    law_lines_of_normalized(sdp);
    law_media_level_is_kept(lines);
    lemma_media_bounds(new);
    law_credentials_reach_session_level(lines, "a=ice-ufrag:"@);
    law_credentials_reach_session_level(lines, "a=ice-pwd:"@);
    lemma_has_attribute(first_media_lines(lines), "a=ice-ufrag:"@);
    lemma_has_attribute(first_media_lines(lines), "a=ice-pwd:"@);
    assert(promoted(new, "a=ice-ufrag:"@) =~= seq![]);
    assert(promoted(new, "a=ice-pwd:"@) =~= seq![]);
    assert(normalized_lines(new) =~= new);
}

/// Whether the line breaks in `s` are CRs directly followed by LFs.
pub open spec fn breaks_are_crlf(s: Seq<char>) -> bool {
    &&& s.len() > 0 ==> s.first() != '\n' && s.last() != '\r'
    &&& forall|i: int, j: int|
        0 <= i < j < s.len() && j == i + 1 ==> (#[trigger] s[i] == '\r' <==> #[trigger] s[j]
            == '\n')
}

/// Whether no line break in `s` directly follows another, so that there is no
/// empty line: no LF is followed by a CR.
pub open spec fn no_empty_lines(s: Seq<char>) -> bool {
    forall|i: int, j: int|
        0 <= i < j < s.len() && j == i + 1 ==> !(#[trigger] s[i] == '\n' && #[trigger] s[j]
            == '\r')
}

proof fn lemma_terminated_breaks(lines: Seq<Line>)
    requires
        forall|i: int| 0 <= i < lines.len() ==> is_clean_line(#[trigger] lines[i]),
    ensures
        breaks_are_crlf(terminated(lines)),
        no_empty_lines(terminated(lines)),
        lines.len() > 0 ==> {
            &&& terminated(lines).len() >= 2
            &&& !is_line_break(terminated(lines).first())
            &&& terminated(lines).last() == '\n'
        },
    decreases lines.len(),
{
    if lines.len() > 0 {
        let before = terminated(lines.drop_last());
        let line = lines.last();
        lemma_terminated_breaks(lines.drop_last());
        assert(is_clean_line(line));
        let s = terminated(lines);
        let n = before.len() as int;
        assert(forall|i: int| n <= i < n + line.len() ==> #[trigger] s[i] == line[i - n]);
        assert(forall|i: int| 0 <= i < n ==> #[trigger] s[i] == before[i]);
        assert(!is_line_break(line[0]));
    }
}

/// A normalised answer ends its lines with CRLF throughout, whatever line
/// breaks the browser used, and has no empty line: no line break follows
/// another, and none comes first unless the answer has no lines at all.
pub proof fn law_normalized_breaks_are_crlf(sdp: Seq<char>)
    ensures
        breaks_are_crlf(normalized(sdp)),
        no_empty_lines(normalized(sdp)),
        sdp_lines(sdp).len() > 0 ==> !is_line_break(normalized(sdp).first()),
        crlf().is_suffix_of(normalized(sdp)),
{
    let new = normalized_lines(sdp_lines(sdp));
    lemma_lines_are_clean(sdp);
    lemma_normalized_lines_clean(sdp_lines(sdp));
    lemma_terminated_breaks(new);
    lemma_media_bounds(sdp_lines(sdp));
    let s = normalized(sdp);
    assert(s.subrange(s.len() - 2, s.len() as int) =~= crlf());
}

/// Whether an answer has no ICE user fragment or no ICE password.
pub open spec fn lacking(sdp: Seq<char>) -> bool {
    !occurs_in(sdp, "a=ice-ufrag:"@) || !occurs_in(sdp, "a=ice-pwd:"@)
}

/// Whether an answer mentions an ICE user fragment.
pub fn mentions_ufrag(sdp: &str) -> (found: bool)
    ensures
        found == occurs_in(sdp@, "a=ice-ufrag:"@),
{
    contains_text(sdp, "a=ice-ufrag:")
}

/// Whether an answer mentions an ICE password.
pub fn mentions_pwd(sdp: &str) -> (found: bool)
    ensures
        found == occurs_in(sdp@, "a=ice-pwd:"@),
{
    contains_text(sdp, "a=ice-pwd:")
}

/// Whether a normalised answer still lacks an ICE credential, which is worth a
/// warning.
pub fn lacks_credentials(normal: &str) -> (lacks: bool)
    ensures
        lacks == lacking(normal@),
{
    !mentions_ufrag(normal) || !mentions_pwd(normal)
}

proof fn lemma_occurs_within(whole: Seq<char>, head: Seq<char>, part: Seq<char>, pattern: Seq<char>)
    requires
        occurs_in(part, pattern),
        head.len() + part.len() <= whole.len(),
        whole.subrange(head.len() as int, (head.len() + part.len()) as int) == part,
    ensures
        occurs_in(whole, pattern),
{
    let at = choose|at: int| occurs_at(part, pattern, at);
    let n = head.len();
    assert(whole.subrange(n + at, n + at + pattern.len()) =~= part.subrange(
        at,
        at + pattern.len(),
    ));
    assert(occurs_at(whole, pattern, n + at));
}

proof fn lemma_occurs_in_terminated(lines: Seq<Line>, i: int, pattern: Seq<char>)
    requires
        0 <= i < lines.len(),
        occurs_in(lines[i], pattern),
    ensures
        occurs_in(terminated(lines), pattern),
    decreases lines.len(),
{
    let whole = terminated(lines);
    let before = terminated(lines.drop_last());
    if i == lines.len() - 1 {
        assert(whole.subrange(
            before.len() as int,
            (before.len() + lines[i].len()) as int,
        ) =~= lines[i]);
        lemma_occurs_within(whole, before, lines[i], pattern);
    } else {
        lemma_occurs_in_terminated(lines.drop_last(), i, pattern);
        assert(whole.subrange(0, before.len() as int) =~= before);
        lemma_occurs_within(whole, seq![], before, pattern);
    }
}

/// An answer that carries both ICE credentials at session level or in its
/// first media section does not lack them once it is normalised.
pub proof fn law_found_credentials_are_not_lacking(sdp: Seq<char>)
    requires
        ({
            let lines = sdp_lines(sdp);
            forall|prefix: Seq<char>|
                prefix == "a=ice-ufrag:"@ || prefix == "a=ice-pwd:"@ ==> #[trigger] has_attribute(
                    session_lines(lines),
                    prefix,
                ) || has_attribute(first_media_lines(lines), prefix)
        }),
    ensures
        !lacking(normalized(sdp)),
{
    lemma_attribute_occurs(sdp, "a=ice-ufrag:"@);
    lemma_attribute_occurs(sdp, "a=ice-pwd:"@);
}

proof fn lemma_attribute_occurs(sdp: Seq<char>, prefix: Seq<char>)
    requires
        prefix == "a=ice-ufrag:"@ || prefix == "a=ice-pwd:"@,
        has_attribute(session_lines(sdp_lines(sdp)), prefix) || has_attribute(
            first_media_lines(sdp_lines(sdp)),
            prefix,
        ),
    ensures
        occurs_in(normalized(sdp), prefix),
{
    let lines = sdp_lines(sdp);
    let new = normalized_lines(lines);
    let session = session_lines(new);
    law_credentials_reach_session_level(lines, prefix);
    lemma_media_bounds(new);
    let i = choose|i: int| 0 <= i < session.len() && prefix.is_prefix_of(#[trigger] session[i]);
    assert(session[i] == new[i]);
    assert(occurs_at(new[i], prefix, 0));
    lemma_occurs_in_terminated(new, i, prefix);
}

/// A CR or LF ends a line wherever it stands: the lines of a text are those of
/// what comes before it and those of what comes after it.
pub proof fn law_break_parts_lines(before: Seq<char>, c: char, after: Seq<char>)
    requires
        c == '\r' || c == '\n',
    ensures
        sdp_lines(before.push(c) + after) == sdp_lines(before) + sdp_lines(after),
    decreases after.len(),
{
    let s = before.push(c) + after;
    if after.len() == 0 {
        assert(s.drop_last() =~= before);
        assert(sdp_lines(s) =~= sdp_lines(before) + sdp_lines(after));
    } else {
        let rest = after.drop_last();
        law_break_parts_lines(before, c, rest);
        assert(s.drop_last() =~= before.push(c) + rest);
        lemma_lines_are_clean(rest);
        assert(s.last() == after.last());
        if after.len() > 1 {
            assert(s[s.len() - 2] == after[after.len() - 2]);
        } else {
            assert(s[s.len() - 2] == c);
        }
        assert(sdp_lines(s) =~= sdp_lines(before) + sdp_lines(after));
    }
}

/// A text without CR and LF is one line, whatever else it holds; an empty text
/// has no line.
pub proof fn law_unbroken_text_is_one_line(s: Seq<char>)
    requires
        forall|i: int| 0 <= i < s.len() ==> #[trigger] s[i] != '\r' && s[i] != '\n',
    ensures
        s.len() > 0 ==> sdp_lines(s) == seq![s],
        s.len() == 0 ==> sdp_lines(s).len() == 0,
    decreases s.len(),
{
    if s.len() > 0 {
        let before = s.drop_last();
        assert forall|i: int| 0 <= i < before.len() implies #[trigger] before[i] != '\r'
            && before[i] != '\n' by {
            assert(before[i] == s[i]);
        }
        law_unbroken_text_is_one_line(before);
        assert(s.last() != '\r' && s.last() != '\n');
        if s.len() == 1 {
            assert(sdp_lines(before) =~= seq![]);
            assert(s =~= seq![s.last()]);
            assert(sdp_lines(s) =~= seq![s]);
        } else {
            assert(s[s.len() - 2] != '\r' && s[s.len() - 2] != '\n');
            assert(before.push(s.last()) =~= s);
            assert(sdp_lines(s) =~= seq![s]);
        }
    }
}

/// Splitting into lines loses no character but CR and LF: the lines one after
/// the other are the text without them.
pub proof fn law_only_breaks_are_lost(s: Seq<char>)
    ensures
        sdp_lines(s).flatten() == s.filter(|c: char| c != '\r' && c != '\n'),
    decreases s.len(),
{
    reveal(Seq::filter);
    let kept = |c: char| c != '\r' && c != '\n';
    let lines = sdp_lines(s);
    if s.len() == 0 {
        assert(lines.flatten() =~= s.filter(kept));
    } else {
        let before = s.drop_last();
        let had = sdp_lines(before);
        let c = s.last();
        law_only_breaks_are_lost(before);
        lemma_lines_are_clean(before);
        lines.lemma_flatten_and_flatten_alt_are_equivalent();
        had.lemma_flatten_and_flatten_alt_are_equivalent();
        if c == '\r' || c == '\n' {
        } else if s.len() == 1 || is_line_break(s[s.len() - 2]) {
            assert(lines.drop_last() =~= had);
            assert(lines.flatten() =~= had.flatten().push(c));
        } else {
            assert(before.last() == s[s.len() - 2]);
            let others = had.drop_last();
            others.lemma_flatten_and_flatten_alt_are_equivalent();
            assert(lines.drop_last() =~= others);
            assert(had.flatten() == others.flatten() + had.last());
            assert(lines.flatten() == others.flatten() + lines.last());
            assert(lines.flatten() =~= had.flatten().push(c));
        }
        assert(s.filter(kept) =~= if kept(c) {
            before.filter(kept).push(c)
        } else {
            before.filter(kept)
        });
    }
}

proof fn lemma_lines_grow(before: Seq<char>, after: Seq<char>)
    ensures
        ({
            let had = sdp_lines(before);
            let lines = sdp_lines(before + after);
            &&& had.len() <= lines.len()
            &&& forall|i: int| 0 <= i < had.len() ==> had[i].is_prefix_of(#[trigger] lines[i])
        }),
    decreases after.len(),
{
    let had = sdp_lines(before);
    let s = before + after;
    let lines = sdp_lines(s);
    if after.len() == 0 {
        assert(s =~= before);
        assert forall|i: int| 0 <= i < had.len() implies had[i].is_prefix_of(
            #[trigger] lines[i],
        ) by {
            assert(lines[i].subrange(0, had[i].len() as int) =~= had[i]);
        }
    } else {
        lemma_lines_grow(before, after.drop_last());
        assert(s.drop_last() =~= before + after.drop_last());
        let middle = sdp_lines(s.drop_last());
        lemma_lines_are_clean(s.drop_last());
        assert forall|i: int| 0 <= i < had.len() implies had[i].is_prefix_of(
            #[trigger] lines[i],
        ) by {
            let n = had[i].len() as int;
            assert(had[i].is_prefix_of(middle[i]));
            if lines[i] != middle[i] {
                assert(lines[i] == middle[i].push(s.last()));
            }
            assert(lines[i].subrange(0, n) =~= middle[i].subrange(0, n));
        }
    }
}

/// Two neighbouring characters of a text neither of which is CR or LF stand next
/// to each other in a line, as the last two that the text up to there has given
/// that line.
pub proof fn law_neighbours_stay_together(s: Seq<char>, i: int)
    requires
        0 <= i,
        i + 1 < s.len(),
        s[i] != '\r' && s[i] != '\n',
        s[i + 1] != '\r' && s[i + 1] != '\n',
    ensures
        ({
            let upto = sdp_lines(s.take(i + 2));
            let l = upto.len() - 1;
            let k = upto.last().len() - 2;
            &&& 0 <= l < sdp_lines(s).len()
            &&& 0 <= k
            &&& k + 1 < sdp_lines(s)[l].len()
            &&& sdp_lines(s)[l][k] == s[i]
            &&& sdp_lines(s)[l][k + 1] == s[i + 1]
            &&& upto.last().is_prefix_of(sdp_lines(s)[l])
        }),
{
    let one = s.take(i + 1);
    let two = s.take(i + 2);
    let upto = sdp_lines(two);
    assert(two.drop_last() =~= one);
    assert(two + s.skip(i + 2) =~= s);
    lemma_lines_grow(two, s.skip(i + 2));
    lemma_lines_are_clean(one);
    lemma_lines_are_clean(two);
    assert(one.last() == s[i]);
    lemma_last_line_ends_with_last(one);
    let l = upto.len() - 1;
    let line = upto.last();
    let k = line.len() - 2;
    assert(line == sdp_lines(one).last().push(s[i + 1]));
    assert(upto[l].is_prefix_of(sdp_lines(s)[l]));
    let whole = sdp_lines(s)[l];
    assert(whole.subrange(0, line.len() as int)[k] == whole[k]);
    assert(whole.subrange(0, line.len() as int)[k + 1] == whole[k + 1]);
}

proof fn lemma_last_line_ends_with_last(s: Seq<char>)
    requires
        s.len() > 0,
        s.last() != '\r' && s.last() != '\n',
    ensures
        sdp_lines(s).len() > 0,
        sdp_lines(s).last().len() > 0,
        sdp_lines(s).last().last() == s.last(),
{
    lemma_lines_are_clean(s);
    lemma_lines_are_clean(s.drop_last());
}

/// Each line followed by CR and LF.
pub open spec fn with_breaks(lines: Seq<Line>) -> Seq<char> {
    lines.map_values(|line: Line| line + seq!['\r', '\n']).flatten()
}

proof fn lemma_terminated_is_with_breaks(lines: Seq<Line>)
    ensures
        terminated(lines) == with_breaks(lines),
    decreases lines.len(),
{
    let ended = lines.map_values(|line: Line| line + seq!['\r', '\n']);
    ended.lemma_flatten_and_flatten_alt_are_equivalent();
    if lines.len() > 0 {
        let before = lines.drop_last();
        let ended_before = before.map_values(|line: Line| line + seq!['\r', '\n']);
        lemma_terminated_is_with_breaks(before);
        ended_before.lemma_flatten_and_flatten_alt_are_equivalent();
        assert(ended.drop_last() =~= ended_before);
        assert(terminated(lines) =~= with_breaks(before) + (lines.last() + seq!['\r', '\n']));
    } else {
        assert(ended =~= seq![]);
    }
}

/// Whether `lines` are one media section: an `m=` line and no other.
pub open spec fn is_media_section(lines: Seq<Line>) -> bool {
    &&& lines.len() > 0
    &&& "m="@.is_prefix_of(lines[0])
    &&& forall|i: int| 0 < i < lines.len() ==> !"m="@.is_prefix_of(#[trigger] lines[i])
}

/// Whether no line of `lines` is an `m=` line.
pub open spec fn is_session_level(lines: Seq<Line>) -> bool {
    forall|i: int| 0 <= i < lines.len() ==> !"m="@.is_prefix_of(#[trigger] lines[i])
}

/// What a session level that is followed by `section` is given for one
/// attribute: the first line of the section with it, unless the session level
/// has it already.
pub open spec fn given(session: Seq<Line>, section: Seq<Line>, prefix: Seq<char>) -> Seq<Line> {
    let hits = section.filter(|line: Line| prefix.is_prefix_of(line));
    if session.filter(|line: Line| prefix.is_prefix_of(line)).len() > 0 || hits.len() == 0 {
        seq![]
    } else {
        seq![hits[0]]
    }
}

proof fn lemma_first_hit(lines: Seq<Line>, prefix: Seq<char>)
    ensures
        ({
            let hits = lines.filter(|line: Line| prefix.is_prefix_of(line));
            let at = first_at(lines, prefix, 0);
            &&& at < lines.len() <==> hits.len() > 0
            &&& hits.len() > 0 ==> hits[0] == lines[at]
        }),
    decreases lines.len(),
{
    reveal(Seq::filter);
    let hit = |line: Line| prefix.is_prefix_of(line);
    let hits = lines.filter(hit);
    let at = first_at(lines, prefix, 0);
    lemma_first_at_bounds(lines, prefix, 0);
    if lines.len() > 0 {
        let before = lines.drop_last();
        let at_before = first_at(before, prefix, 0);
        lemma_first_hit(before, prefix);
        lemma_first_at_bounds(before, prefix, 0);
        if at_before < before.len() {
            assert forall|i: int| 0 <= i < at_before implies !prefix.is_prefix_of(
                #[trigger] lines[i],
            ) by {
                assert(before[i] == lines[i]);
            }
            assert(before[at_before] == lines[at_before]);
            lemma_first_at_is(lines, prefix, 0, at_before);
        } else {
            assert forall|i: int| 0 <= i < before.len() implies !prefix.is_prefix_of(
                #[trigger] lines[i],
            ) by {
                assert(before[i] == lines[i]);
            }
            if hit(lines.last()) {
                lemma_first_at_is(lines, prefix, 0, lines.len() - 1);
            } else {
                lemma_first_at_is(lines, prefix, 0, lines.len() as int);
            }
        }
    }
}

/// An answer of a session level, a media section and further media sections is
/// given the credentials of the first section at the end of its session level,
/// user fragment before password, and is otherwise kept as it is.
pub proof fn law_normalized_lines_of_parts(
    session: Seq<Line>,
    section: Seq<Line>,
    further: Seq<Line>,
)
    requires
        is_session_level(session),
        is_media_section(section),
        further.len() > 0 ==> "m="@.is_prefix_of(further[0]),
    ensures
        normalized_lines(session + section + further) == session + given(
            session,
            section,
            "a=ice-ufrag:"@,
        ) + given(session, section, "a=ice-pwd:"@) + section + further,
{
    let m = "m="@;
    let lines = session + section + further;
    let start = session.len() as int;
    let end = start + section.len();
    assert forall|i: int| 0 <= i < start implies !m.is_prefix_of(#[trigger] lines[i]) by {
        assert(lines[i] == session[i]);
    }
    assert(lines[start] == section[0]);
    lemma_first_at_is(lines, m, 0, start);
    assert forall|i: int| start + 1 <= i < end implies !m.is_prefix_of(#[trigger] lines[i]) by {
        assert(lines[i] == section[i - start]);
    }
    if further.len() > 0 {
        assert(lines[end] == further[0]);
    }
    lemma_first_at_is(lines, m, start + 1, end);
    assert(session_lines(lines) =~= session);
    assert(first_media_lines(lines) =~= section);
    assert(lines.skip(start) =~= section + further);
    lemma_given_is_promoted(lines, "a=ice-ufrag:"@);
    lemma_given_is_promoted(lines, "a=ice-pwd:"@);
    assert(normalized_lines(lines) =~= session + given(session, section, "a=ice-ufrag:"@) + given(
        session,
        section,
        "a=ice-pwd:"@,
    ) + section + further);
}

proof fn lemma_given_is_promoted(lines: Seq<Line>, prefix: Seq<char>)
    ensures
        promoted(lines, prefix) == given(session_lines(lines), first_media_lines(lines), prefix),
{
    lemma_has_attribute(session_lines(lines), prefix);
    lemma_first_hit(session_lines(lines), prefix);
    lemma_first_hit(first_media_lines(lines), prefix);
    lemma_first_at_bounds(first_media_lines(lines), prefix, 0);
}

/// The normalised text of an answer with media sections: every line of it, with
/// the credentials of the first section at the end of the session level, and
/// CR LF after each.
pub proof fn law_normalized_text_of_parts(
    sdp: Seq<char>,
    session: Seq<Line>,
    section: Seq<Line>,
    further: Seq<Line>,
)
    requires
        sdp_lines(sdp) == session + section + further,
        is_session_level(session),
        is_media_section(section),
        further.len() > 0 ==> "m="@.is_prefix_of(further[0]),
    ensures
        normalized(sdp) == with_breaks(
            session + given(session, section, "a=ice-ufrag:"@) + given(
                session,
                section,
                "a=ice-pwd:"@,
            ) + section + further,
        ),
{
    law_normalized_lines_of_parts(session, section, further);
    lemma_terminated_is_with_breaks(normalized_lines(sdp_lines(sdp)));
}

/// The normalised text of an answer without media section: every line of it,
/// with CR LF after each, or CR LF alone if it has no line.
pub proof fn law_normalized_text_without_media(sdp: Seq<char>)
    requires
        is_session_level(sdp_lines(sdp)),
    ensures
        sdp_lines(sdp).len() > 0 ==> normalized(sdp) == with_breaks(sdp_lines(sdp)),
        sdp_lines(sdp).len() == 0 ==> normalized(sdp) == seq!['\r', '\n'],
{
    let lines = sdp_lines(sdp);
    lemma_first_at_is(lines, "m="@, 0, lines.len() as int);
    lemma_media_bounds(lines);
    assert(first_media_lines(lines) =~= seq![]);
    assert(normalized_lines(lines) =~= lines);
    lemma_terminated_is_with_breaks(lines);
}

/// An answer loses no character but CR and LF in normalising: without them, the
/// normalised text is the text with the copied credentials put in, and where
/// none are copied it is the text itself.
pub proof fn law_normalizing_loses_only_breaks(sdp: Seq<char>)
    ensures
        ({
            let kept = |c: char| c != '\r' && c != '\n';
            let before = sdp.filter(kept);
            let after = normalized(sdp).filter(kept);
            exists|at: int, n: int|
                0 <= at <= before.len() && 0 <= n && #[trigger] before.take(at)
                    + #[trigger] after.subrange(at, at + n) + before.skip(at) == after
        }),
{
    let kept = |c: char| c != '\r' && c != '\n';
    let lines = sdp_lines(sdp);
    let new = normalized_lines(lines);
    let head = session_lines(lines);
    let added = promoted(lines, "a=ice-ufrag:"@) + promoted(lines, "a=ice-pwd:"@);
    let tail = lines.skip(media_start(lines));
    lemma_media_bounds(lines);
    law_only_breaks_are_lost(sdp);
    law_only_breaks_are_lost(normalized(sdp));
    law_lines_of_normalized(sdp);
    assert(lines =~= head + tail);
    assert(new =~= head + added + tail);
    lemma_flatten_sum(head, tail);
    lemma_flatten_sum(head + added, tail);
    lemma_flatten_sum(head, added);
    let before = sdp.filter(kept);
    let after = normalized(sdp).filter(kept);
    let at = head.flatten().len() as int;
    let n = added.flatten().len() as int;
    assert(before.take(at) =~= head.flatten());
    assert(before.skip(at) =~= tail.flatten());
    assert(after.subrange(at, at + n) =~= added.flatten());
    assert(before.take(at) + after.subrange(at, at + n) + before.skip(at) =~= after);
}

proof fn lemma_flatten_sum(a: Seq<Line>, b: Seq<Line>)
    ensures
        (a + b).flatten() == a.flatten() + b.flatten(),
    decreases a.len(),
{
    if a.len() == 0 {
        assert(a + b =~= b);
        assert(a.flatten() + b.flatten() =~= b.flatten());
    } else {
        assert((a + b).drop_first() =~= a.drop_first() + b);
        lemma_flatten_sum(a.drop_first(), b);
        assert((a + b).flatten() =~= a.first() + (a.drop_first() + b).flatten());
        assert(a.first() + (a.drop_first().flatten() + b.flatten()) =~= (a.first()
            + a.drop_first().flatten()) + b.flatten());
    }
}

/// An answer lacks credentials unless both attribute names stand in it.
pub proof fn law_lacking_means_not_mentioned(sdp: Seq<char>)
    ensures
        !lacking(sdp) <==> occurs_in(sdp, "a=ice-ufrag:"@) && occurs_in(sdp, "a=ice-pwd:"@),
{
}

} // verus!
