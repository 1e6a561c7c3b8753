//! The patch language as it is written: the grammar a model is told is the grammar that is read.

use vstd::prelude::*;
use crate::apply_patch::{
    body_of, breaks_trimmed_end, breaks_trimmed_start, header_of, hunk_of,
    hunks_end, hunks_of, is_marker, op_of, parsed, patch_lines, plus_end, plus_text,
    returns_trimmed, section_of, sections_of, HunkView, OpView, SectionView, ADD, BEGIN, DELETE,
    END, EOF_MARKER, MOVE, UPDATE,
};
use crate::paths::lemma_split_undoes_join;
use crate::text;
use crate::text::{
    has_prefix, joined, lines_of, split_on, trimmed, trimmed_end, trimmed_start, white_space,
};

verus! {

/// Whether a text fits on a line.
pub open spec fn on_a_line(s: Seq<char>) -> bool {
    !s.contains('\n') && !s.contains('\r')
}

/// Whether a text fits on a line and neither begins nor ends with white space.
pub open spec fn neat(s: Seq<char>) -> bool {
    s.len() > 0 && !white_space(s[0]) && !white_space(s.last()) && on_a_line(s)
}

/// How a line of a hunk is written.
pub open spec fn op_line(op: OpView) -> Seq<char> {
    match op {
        OpView::Context(line) => seq![' '] + line,
        OpView::Remove(line) => seq!['-'] + line,
        OpView::Add(line) => seq!['+'] + line,
    }
}

/// What a line of a hunk says.
pub open spec fn op_text(op: OpView) -> Seq<char> {
    match op {
        OpView::Context(line) => line,
        OpView::Remove(line) => line,
        OpView::Add(line) => line,
    }
}

/// How the lines of a hunk are written.
pub open spec fn op_lines(ops: Seq<OpView>) -> Seq<Seq<char>> {
    ops.map_values(|op: OpView| op_line(op))
}

/// How a hunk is written: `@@`, with the scope it is in behind it, its lines, and a marker where
/// it ends the file.
pub open spec fn hunk_lines(hunk: HunkView) -> Seq<Seq<char>> {
    seq![
        match hunk.header {
            Some(header) => "@@ "@ + header,
            None => "@@"@,
        },
    ] + op_lines(hunk.ops) + (if hunk.at_eof {
        seq![EOF_MARKER@]
    } else {
        Seq::empty()
    })
}

/// How some hunks are written.
pub open spec fn hunks_lines(hunks: Seq<HunkView>) -> Seq<Seq<char>>
    decreases hunks.len(),
{
    if hunks.len() == 0 {
        Seq::empty()
    } else {
        hunk_lines(hunks[0]) + hunks_lines(hunks.drop_first())
    }
}

/// How the contents of a new file are written, line by line.
pub open spec fn added_lines(contents: Seq<char>) -> Seq<Seq<char>> {
    split_on(contents, '\n').drop_last().map_values(|l: Seq<char>| seq!['+'] + l)
}

/// How a section is written.
pub open spec fn section_lines(section: SectionView) -> Seq<Seq<char>> {
    match section {
        SectionView::Add { path, contents } => seq![ADD@ + path] + added_lines(contents),
        SectionView::Delete { path } => seq![DELETE@ + path],
        SectionView::Update { path, move_to, hunks } => seq![UPDATE@ + path] + (match move_to {
            Some(target) => seq![MOVE@ + target],
            None => Seq::empty(),
        }) + hunks_lines(hunks),
    }
}

/// How some sections are written.
pub open spec fn sections_lines(sections: Seq<SectionView>) -> Seq<Seq<char>>
    decreases sections.len(),
{
    if sections.len() == 0 {
        Seq::empty()
    } else {
        section_lines(sections[0]) + sections_lines(sections.drop_first())
    }
}

/// How a patch is written, line by line.
pub open spec fn envelope(sections: Seq<SectionView>) -> Seq<Seq<char>> {
    seq![BEGIN@] + sections_lines(sections) + seq![END@]
}

/// How a patch is written.
pub open spec fn written(sections: Seq<SectionView>) -> Seq<char> {
    joined(envelope(sections), seq!['\n']) + "\n"@
}

/// Whether a hunk can be written: its scope and its lines fit on lines of their own, and it has a
/// line, or it only narrows the search for the hunk behind it.
pub open spec fn writable_hunk(hunk: HunkView, last: bool) -> bool {
    &&& hunk.header is Some ==> neat(hunk.header->0)
    &&& forall|i: int| 0 <= i < hunk.ops.len() ==> on_a_line(op_text(#[trigger] hunk.ops[i]))
    &&& hunk.ops.len() > 0 || (hunk.header is Some && !hunk.at_eof && !last)
}

/// Whether a section can be written: its paths are neat, what it adds are whole lines, and its
/// hunks can be written.
pub open spec fn writable(section: SectionView) -> bool {
    match section {
        SectionView::Add { path, contents } => neat(path) && !contents.contains('\r') && (
        contents.len() > 0 ==> contents.last() == '\n'),
        SectionView::Delete { path } => neat(path),
        SectionView::Update { path, move_to, hunks } => neat(path) && (move_to is Some ==> neat(
            move_to->0,
        )) && hunks.len() > 0 && (forall|i: int|
            0 <= i < hunks.len() ==> writable_hunk(#[trigger] hunks[i], i == hunks.len() - 1)),
    }
}

/// Whether some lines stand in a text from `at` on.
pub open spec fn stand(lines: Seq<Seq<char>>, at: int, part: Seq<Seq<char>>) -> bool {
    0 <= at && at + part.len() <= lines.len() && lines.subrange(at, at + part.len()) == part
}

/// Lines that stand behind others.
proof fn lemma_stand_split(
    lines: Seq<Seq<char>>,
    at: int,
    a: Seq<Seq<char>>,
    b: Seq<Seq<char>>,
)
    requires
        stand(lines, at, a + b),
    ensures
        stand(lines, at, a),
        stand(lines, at + a.len(), b),
{
    assert(lines.subrange(at, at + a.len()) =~= (a + b).subrange(0, a.len() as int)) by {
        assert(lines.subrange(at, at + (a + b).len()).subrange(0, a.len() as int)
            =~= lines.subrange(at, at + a.len()));
    }
    assert((a + b).subrange(0, a.len() as int) =~= a);
    assert(lines.subrange(at + a.len(), at + a.len() + b.len()) =~= lines.subrange(
        at,
        at + (a + b).len(),
    ).subrange(a.len() as int, (a + b).len() as int));
    assert((a + b).subrange(a.len() as int, (a + b).len() as int) =~= b);
}

/// A line that stands in a text.
proof fn lemma_stand_at(lines: Seq<Seq<char>>, at: int, part: Seq<Seq<char>>, i: int)
    requires
        stand(lines, at, part),
        0 <= i < part.len(),
    ensures
        lines[at + i] == part[i],
{
    assert(lines.subrange(at, at + part.len())[i] == part[i]);
}

/// A neat text stays as it is when it is trimmed, also behind a blank.
proof fn lemma_neat(s: Seq<char>)
    requires
        neat(s),
    ensures
        trimmed(s) == s,
        trimmed(seq![' '] + s) == s,
        trimmed_end(s) == s,
{
    assert(trimmed_start(s) == s);
    assert((seq![' '] + s).drop_first() =~= s);
    assert(trimmed_start(seq![' '] + s) == s);
}

/// A line whose last character is visible is not trimmed at its end.
proof fn lemma_end_stays(front: Seq<char>, s: Seq<char>)
    requires
        neat(s),
    ensures
        trimmed_end(front + s) == front + s,
{
    assert((front + s).last() == s.last());
}

/// A line with these in front of it begins with them.
proof fn lemma_prefixed(front: Seq<char>, s: Seq<char>)
    ensures
        has_prefix(front + s, front),
        (front + s).skip(front.len() as int) == s,
{
    assert((front + s).take(front.len() as int) =~= front);
    assert((front + s).skip(front.len() as int) =~= s);
}

/// A line begins with the first character of what it begins with.
proof fn lemma_first_char(line: Seq<char>, p: Seq<char>, i: int)
    requires
        has_prefix(line, p),
        0 <= i < p.len(),
    ensures
        line[i] == p[i],
{
    assert(line.take(p.len() as int)[i] == p[i]);
}

/// What the lines of a hunk stand for.
proof fn lemma_op_line(op: OpView)
    ensures
        op_of(op_line(op)) == Some(op),
        op_line(op).len() > 0,
        op_line(op)[0] == ' ' || op_line(op)[0] == '-' || op_line(op)[0] == '+',
{
    assert(op_line(op).skip(1) =~= op_text(op));
}

/// A line of a hunk is none of the markers.
proof fn lemma_op_is_no_marker(line: Seq<char>)
    requires
        line.len() > 0,
        line[0] == ' ' || line[0] == '-' || line[0] == '+',
    ensures
        !has_prefix(line, "@@"@),
        !has_prefix(line, "*** "@),
        !is_marker(line, EOF_MARKER@),
        !is_marker(line, END@),
{
    reveal_strlit("@@");
    reveal_strlit("*** ");
    reveal_strlit("*** End of File");
    reveal_strlit("*** End Patch");
    if has_prefix(line, "@@"@) {
        lemma_first_char(line, "@@"@, 0);
    }
    if has_prefix(line, "*** "@) {
        lemma_first_char(line, "*** "@, 0);
    }
    lemma_trimmed_end_front(line);
}

/// What is left of a line trimmed at its end begins as the line does.
proof fn lemma_trimmed_end_front(line: Seq<char>)
    ensures
        trimmed_end(line).len() <= line.len(),
        trimmed_end(line).len() > 0 ==> trimmed_end(line)[0] == line[0],
    decreases line.len(),
{
    if line.len() > 0 && white_space(line.last()) {
        lemma_trimmed_end_front(line.drop_last());
    }
}

/// Reading the lines of a hunk.
proof fn lemma_body(lines: Seq<Seq<char>>, at: int, ops: Seq<OpView>, done: Seq<OpView>)
    requires
        stand(lines, at, op_lines(ops)),
    ensures
        body_of(lines, at, done) == body_of(lines, at + ops.len(), done + ops),
    decreases ops.len(),
{
    if ops.len() == 0 {
        assert(done + ops =~= done);
    } else {
        let rest = ops.drop_first();
        assert(op_lines(ops) =~= seq![op_line(ops[0])] + op_lines(rest));
        lemma_stand_split(lines, at, seq![op_line(ops[0])], op_lines(rest));
        lemma_stand_at(lines, at, seq![op_line(ops[0])], 0);
        lemma_op_line(ops[0]);
        lemma_op_is_no_marker(lines[at]);
        lemma_body(lines, at + 1, rest, done.push(ops[0]));
        assert(done.push(ops[0]) + rest =~= done + ops);
    }
}

/// Whether a line begins another hunk or another section, or ends the patch.
pub open spec fn begins_anew(line: Seq<char>) -> bool {
    has_prefix(line, "@@"@) || (has_prefix(line, "*** "@) && !is_marker(line, EOF_MARKER@))
}

/// Reading one hunk.
proof fn lemma_hunk(lines: Seq<Seq<char>>, at: int, hunk: HunkView, last: bool)
    requires
        stand(lines, at, hunk_lines(hunk)),
        writable_hunk(hunk, last),
        at + hunk_lines(hunk).len() < lines.len(),
        begins_anew(lines[at + hunk_lines(hunk).len()]),
        !last ==> has_prefix(lines[at + hunk_lines(hunk).len()], "@@"@),
    ensures
        has_prefix(lines[at], "@@"@),
        !hunks_end(lines, at),
        hunk_of(lines, at + 1, header_of(lines[at])) == Ok::<(HunkView, int), Seq<char>>(
            (hunk, at + hunk_lines(hunk).len()),
        ),
{
    reveal_strlit("@@");
    reveal_strlit("@@ ");
    reveal_strlit("*** ");
    reveal_strlit("*** End of File");
    let first = match hunk.header {
        Some(header) => "@@ "@ + header,
        None => "@@"@,
    };
    let tail = if hunk.at_eof {
        seq![EOF_MARKER@]
    } else {
        Seq::empty()
    };
    let body = op_lines(hunk.ops);
    assert(hunk_lines(hunk) =~= seq![first] + (body + tail));
    lemma_stand_split(lines, at, seq![first], body + tail);
    lemma_stand_at(lines, at, seq![first], 0);
    lemma_stand_split(lines, at + 1, body, tail);
    assert(first.take(2) =~= "@@"@);
    // The header.
    match hunk.header {
        Some(header) => {
            assert(first.skip(2) =~= seq![' '] + header);
            lemma_neat(header);
        },
        None => {
            assert(first.skip(2) =~= Seq::<char>::empty());
            assert(trimmed(Seq::<char>::empty()) =~= Seq::<char>::empty());
        },
    }
    assert(header_of(lines[at]) == hunk.header);
    assert(!has_prefix(lines[at], "*** "@)) by {
        if has_prefix(lines[at], "*** "@) {
            lemma_first_char(lines[at], "*** "@, 0);
        }
    }
    // The lines.
    lemma_body(lines, at + 1, hunk.ops, Seq::empty());
    assert(Seq::<OpView>::empty() + hunk.ops =~= hunk.ops);
    let next = at + 1 + hunk.ops.len();
    if hunk.at_eof {
        lemma_stand_at(lines, next, tail, 0);
        assert(trimmed_end(EOF_MARKER@) == EOF_MARKER@);
        if has_prefix(EOF_MARKER@, "@@"@) {
            lemma_first_char(EOF_MARKER@, "@@"@, 0);
        }
        assert(body_of(lines, next, hunk.ops) == Ok::<(Seq<OpView>, int, bool), Seq<char>>(
            (hunk.ops, next + 1, true),
        ));
    } else {
        assert(next == at + hunk_lines(hunk).len());
        assert(body_of(lines, next, hunk.ops) == Ok::<(Seq<OpView>, int, bool), Seq<char>>(
            (hunk.ops, next, false),
        ));
    }
}

/// Reading some hunks.
proof fn lemma_hunks(
    lines: Seq<Seq<char>>,
    at: int,
    hunks: Seq<HunkView>,
    path: Seq<char>,
    done: Seq<HunkView>,
)
    requires
        stand(lines, at, hunks_lines(hunks)),
        done.len() + hunks.len() > 0,
        forall|i: int|
            0 <= i < hunks.len() ==> writable_hunk(#[trigger] hunks[i], i == hunks.len() - 1),
        at + hunks_lines(hunks).len() < lines.len(),
        has_prefix(lines[at + hunks_lines(hunks).len()], "*** "@),
        !is_marker(lines[at + hunks_lines(hunks).len()], EOF_MARKER@),
    ensures
        hunks_of(lines, at, path, done) == Ok::<(Seq<HunkView>, int), Seq<char>>(
            (done + hunks, at + hunks_lines(hunks).len()),
        ),
    decreases hunks.len(),
{
    if hunks.len() == 0 {
        assert(done + hunks =~= done);
    } else {
        let hunk = hunks[0];
        let rest = hunks.drop_first();
        let last = hunks.len() == 1;
        lemma_stand_split(lines, at, hunk_lines(hunk), hunks_lines(rest));
        let next = at + hunk_lines(hunk).len();
        if last {
            assert(rest =~= Seq::empty());
            assert(hunks_lines(rest) =~= Seq::empty());
        } else {
            // The next line opens the next hunk.
            let first = match rest[0].header {
                Some(header) => "@@ "@ + header,
                None => "@@"@,
            };
            assert(hunks_lines(rest)[0] == first);
            lemma_stand_at(lines, next, hunks_lines(rest), 0);
            reveal_strlit("@@");
            reveal_strlit("@@ ");
            assert(first.take(2) =~= "@@"@);
        }
        assert(writable_hunk(hunks[0], last));
        lemma_hunk(lines, at, hunk, last);
        // The line that opens it is not blank.
        let opening = match hunk.header {
            Some(header) => "@@ "@ + header,
            None => "@@"@,
        };
        reveal_strlit("@@");
        reveal_strlit("@@ ");
        assert(hunks_lines(hunks)[0] == opening);
        lemma_stand_at(lines, at, hunks_lines(hunks), 0);
        assert(lines[at][0] == '@');
        assert(text::trimmed_start(lines[at]) == lines[at]);
        text::lemma_trim_ends(lines[at]);
        assert forall|i: int| 0 <= i < rest.len() implies writable_hunk(
            #[trigger] rest[i],
            i == rest.len() - 1,
        ) by {
            assert(rest[i] == hunks[i + 1]);
        }
        lemma_hunks(lines, next, rest, path, done.push(hunk));
        assert(done.push(hunk) + rest =~= done + hunks);
    }
}

/// Reading the `+` lines of a new file.
proof fn lemma_plus(lines: Seq<Seq<char>>, at: int, added: Seq<Seq<char>>)
    requires
        stand(lines, at, added),
        forall|i: int| 0 <= i < added.len() ==> has_prefix(#[trigger] added[i], "+"@),
        at + added.len() < lines.len(),
        !has_prefix(lines[at + added.len()], "+"@),
    ensures
        plus_end(lines, at) == at + added.len(),
    decreases added.len(),
{
    if added.len() > 0 {
        lemma_stand_at(lines, at, added, 0);
        let rest = added.drop_first();
        assert(added =~= seq![added[0]] + rest);
        lemma_stand_split(lines, at, seq![added[0]], rest);
        assert forall|i: int| 0 <= i < rest.len() implies has_prefix(#[trigger] rest[i], "+"@) by {
            assert(rest[i] == added[i + 1]);
        }
        lemma_plus(lines, at + 1, rest);
    }
}

/// The text that `+` lines spell out.
proof fn lemma_plus_text(
    lines: Seq<Seq<char>>,
    at: int,
    pieces: Seq<Seq<char>>,
    n: int,
)
    requires
        0 <= n <= pieces.len(),
        forall|i: int| 0 <= i < n ==> #[trigger] lines[at + i] == seq!['+'] + pieces[i],
    ensures
        plus_text(lines, at, at + n) == ended(pieces.take(n)),
    decreases n,
{
    if n > 0 {
        lemma_plus_text(lines, at, pieces, n - 1);
        assert(pieces.take(n).drop_last() =~= pieces.take(n - 1));
        assert(lines[at + (n - 1)] == seq!['+'] + pieces[n - 1]);
        assert((seq!['+'] + pieces[n - 1]).skip(1) =~= pieces[n - 1]);
    }
}

/// Some lines, each with its line feed.
pub open spec fn ended(pieces: Seq<Seq<char>>) -> Seq<char>
    decreases pieces.len(),
{
    if pieces.len() == 0 {
        Seq::empty()
    } else {
        ended(pieces.drop_last()) + pieces.last() + "\n"@
    }
}

/// A text that ends with a line feed is its lines, each with its line feed.
proof fn lemma_ended(s: Seq<char>)
    ensures
        ended(split_on(s, '\n').drop_last()) + split_on(s, '\n').last() == s,
        split_on(s, '\n').len() > 0,
        s.len() == 0 || s.last() == '\n' ==> split_on(s, '\n').last().len() == 0,
    decreases s.len(),
{
    reveal_strlit("\n");
    let all = split_on(s, '\n');
    if s.len() == 0 {
        assert(all.drop_last() =~= Seq::empty());
        assert(ended(all.drop_last()) + all.last() =~= s);
    } else {
        let init = s.drop_last();
        lemma_ended(init);
        let before = split_on(init, '\n');
        if s.last() == '\n' {
            assert(all.drop_last() =~= before);
            assert(before.drop_last().push(before.last()) =~= before);
            assert(ended(before) =~= ended(before.drop_last()) + before.last() + "\n"@);
            assert(ended(all.drop_last()) + all.last() =~= init.push('\n'));
        } else {
            assert(all.drop_last() =~= before.drop_last());
            assert(ended(all.drop_last()) + all.last() =~= init.push(s.last()));
        }
        assert(init.push(s.last()) =~= s);
    }
}

/// The headers tell sections apart.
proof fn lemma_headers(path: Seq<char>)
    requires
        neat(path),
    ensures
        has_prefix(ADD@ + path, "*** "@),
        has_prefix(DELETE@ + path, "*** "@),
        has_prefix(UPDATE@ + path, "*** "@),
        has_prefix(END@, "*** "@),
        !is_marker(ADD@ + path, EOF_MARKER@),
        !is_marker(DELETE@ + path, EOF_MARKER@),
        !is_marker(UPDATE@ + path, EOF_MARKER@),
        !is_marker(END@, EOF_MARKER@),
        !is_marker(ADD@ + path, END@),
        !is_marker(DELETE@ + path, END@),
        !is_marker(UPDATE@ + path, END@),
        is_marker(END@, END@),
        is_marker(BEGIN@, BEGIN@),
        !has_prefix(DELETE@ + path, ADD@),
        !has_prefix(UPDATE@ + path, ADD@),
        !has_prefix(UPDATE@ + path, DELETE@),
        !has_prefix(END@, "+"@),
        !has_prefix(ADD@ + path, "+"@),
        !has_prefix(DELETE@ + path, "+"@),
        !has_prefix(UPDATE@ + path, "+"@),
{
    reveal_strlit("*** Add File: ");
    reveal_strlit("*** Delete File: ");
    reveal_strlit("*** Update File: ");
    reveal_strlit("*** End Patch");
    reveal_strlit("*** Begin Patch");
    reveal_strlit("*** End of File");
    reveal_strlit("*** ");
    reveal_strlit("+");
    lemma_end_stays(ADD@, path);
    lemma_end_stays(DELETE@, path);
    lemma_end_stays(UPDATE@, path);
    assert((ADD@ + path).take(4) =~= "*** "@);
    assert((DELETE@ + path).take(4) =~= "*** "@);
    assert((UPDATE@ + path).take(4) =~= "*** "@);
    assert(END@.take(4) =~= "*** "@);
    assert((ADD@ + path)[4] == 'A');
    assert((DELETE@ + path)[4] == 'D');
    assert((UPDATE@ + path)[4] == 'U');
    assert(END@[4] == 'E');
    assert(EOF_MARKER@[4] == 'E');
    assert(END@[8] == 'P');
    assert(EOF_MARKER@[8] == 'o');
    if has_prefix(DELETE@ + path, ADD@) {
        lemma_first_char(DELETE@ + path, ADD@, 4);
    }
    if has_prefix(UPDATE@ + path, ADD@) {
        lemma_first_char(UPDATE@ + path, ADD@, 4);
    }
    if has_prefix(UPDATE@ + path, DELETE@) {
        lemma_first_char(UPDATE@ + path, DELETE@, 4);
    }
    if has_prefix(END@, "+"@) {
        lemma_first_char(END@, "+"@, 0);
    }
    if has_prefix(ADD@ + path, "+"@) {
        lemma_first_char(ADD@ + path, "+"@, 0);
    }
    if has_prefix(DELETE@ + path, "+"@) {
        lemma_first_char(DELETE@ + path, "+"@, 0);
    }
    if has_prefix(UPDATE@ + path, "+"@) {
        lemma_first_char(UPDATE@ + path, "+"@, 0);
    }
}

/// Whether a line begins a section or ends the patch.
pub open spec fn begins_section(line: Seq<char>) -> bool {
    has_prefix(line, "*** "@) && !is_marker(line, EOF_MARKER@) && !has_prefix(line, "+"@)
}

/// Reading one section.
proof fn lemma_section(lines: Seq<Seq<char>>, at: int, section: SectionView)
    requires
        stand(lines, at, section_lines(section)),
        writable(section),
        at + section_lines(section).len() < lines.len(),
        begins_section(lines[at + section_lines(section).len()]),
    ensures
        !is_marker(lines[at], END@),
        section_of(lines, at) == Ok::<(Option<SectionView>, int), Seq<char>>(
            (Some(section), at + section_lines(section).len()),
        ),
{
    match section {
        SectionView::Add { path, contents } => {
            lemma_headers(path);
            lemma_neat(path);
            lemma_prefixed(ADD@, path);
            let added = added_lines(contents);
            lemma_stand_split(lines, at, seq![ADD@ + path], added);
            lemma_stand_at(lines, at, seq![ADD@ + path], 0);
            reveal_strlit("+");
            let pieces = split_on(contents, '\n').drop_last();
            assert forall|i: int| 0 <= i < added.len() implies has_prefix(
                #[trigger] added[i],
                "+"@,
            ) by {
                assert(added[i] == seq!['+'] + pieces[i]);
                assert(added[i].take(1) =~= "+"@);
            }
            lemma_plus(lines, at + 1, added);
            assert forall|i: int| 0 <= i < pieces.len() implies #[trigger] lines[at + 1 + i]
                == seq!['+'] + pieces[i] by {
                lemma_stand_at(lines, at + 1, added, i);
                assert(added[i] == seq!['+'] + pieces[i]);
            }
            lemma_plus_text(lines, at + 1, pieces, pieces.len() as int);
            assert(pieces.take(pieces.len() as int) =~= pieces);
            lemma_ended(contents);
            assert(ended(pieces) =~= contents);
        },
        SectionView::Delete { path } => {
            lemma_headers(path);
            lemma_neat(path);
            lemma_prefixed(DELETE@, path);
            lemma_stand_at(lines, at, seq![DELETE@ + path], 0);
        },
        SectionView::Update { path, move_to, hunks } => {
            lemma_headers(path);
            lemma_neat(path);
            lemma_prefixed(UPDATE@, path);
            let moving = match move_to {
                Some(target) => seq![MOVE@ + target],
                None => Seq::empty(),
            };
            let body = hunks_lines(hunks);
            assert(section_lines(section) =~= seq![UPDATE@ + path] + (moving + body));
            lemma_stand_split(lines, at, seq![UPDATE@ + path], moving + body);
            lemma_stand_at(lines, at, seq![UPDATE@ + path], 0);
            lemma_stand_split(lines, at + 1, moving, body);
            let start = at + 1 + moving.len();
            match move_to {
                Some(target) => {
                    lemma_stand_at(lines, at + 1, moving, 0);
                    lemma_prefixed(MOVE@, target);
                    lemma_neat(target);
                },
                None => {
                    // The next line opens the first hunk, and moves nothing.
                    let first = match hunks[0].header {
                        Some(header) => "@@ "@ + header,
                        None => "@@"@,
                    };
                    assert(writable_hunk(hunks[0], 0 == hunks.len() - 1));
                    assert(body[0] == first);
                    lemma_stand_at(lines, at + 1, body, 0);
                    reveal_strlit("@@");
                    reveal_strlit("@@ ");
                    reveal_strlit("*** Move to: ");
                    if has_prefix(lines[at + 1], MOVE@) {
                        lemma_first_char(lines[at + 1], MOVE@, 0);
                    }
                },
            }
            lemma_hunks(lines, start, hunks, path, Seq::empty());
            assert(Seq::<HunkView>::empty() + hunks =~= hunks);
        },
    }
}

/// A written section has a line, and its first one begins a section.
proof fn lemma_section_begins(section: SectionView)
    requires
        writable(section),
    ensures
        section_lines(section).len() > 0,
        begins_section(section_lines(section)[0]),
{
    match section {
        SectionView::Add { path, contents } => {
            lemma_headers(path);
        },
        SectionView::Delete { path } => {
            lemma_headers(path);
        },
        SectionView::Update { path, move_to, hunks } => {
            lemma_headers(path);
        },
    }
}

/// Reading some sections.
proof fn lemma_sections(
    lines: Seq<Seq<char>>,
    at: int,
    sections: Seq<SectionView>,
    done: Seq<SectionView>,
)
    requires
        stand(lines, at, sections_lines(sections) + seq![END@]),
        done.len() + sections.len() > 0,
        forall|i: int| 0 <= i < sections.len() ==> writable(#[trigger] sections[i]),
    ensures
        sections_of(lines, at, done) == Ok::<Seq<SectionView>, Seq<char>>(done + sections),
    decreases sections.len(),
{
    lemma_stand_split(lines, at, sections_lines(sections), seq![END@]);
    if sections.len() == 0 {
        lemma_stand_at(lines, at, seq![END@], 0);
        lemma_headers(seq!['x']);
        assert(done + sections =~= done);
    } else {
        let section = sections[0];
        let rest = sections.drop_first();
        let own = section_lines(section);
        assert(writable(section));
        assert(sections_lines(sections) + seq![END@] =~= own + (sections_lines(rest) + seq![END@]));
        lemma_stand_split(lines, at, own, sections_lines(rest) + seq![END@]);
        let next = at + own.len();
        assert forall|i: int| 0 <= i < rest.len() implies writable(#[trigger] rest[i]) by {
            assert(rest[i] == sections[i + 1]);
        }
        lemma_stand_at(lines, next, sections_lines(rest) + seq![END@], 0);
        if rest.len() > 0 {
            assert(writable(rest[0]));
            lemma_section_begins(rest[0]);
            assert(lines[next] == section_lines(rest[0])[0]);
        } else {
            assert(sections_lines(rest) =~= Seq::empty());
            lemma_headers(seq!['x']);
            assert(lines[next] == END@);
        }
        lemma_section(lines, at, section);
        lemma_section_begins(section);
        lemma_sections(lines, next, rest, done.push(section));
        assert(done.push(section) + rest =~= done + sections);
    }
}

/// Two texts that fit on a line do so together.
proof fn lemma_on_a_line(a: Seq<char>, b: Seq<char>)
    requires
        on_a_line(a),
        on_a_line(b),
    ensures
        on_a_line(a + b),
{
    assert forall|c: char| (a + b).contains(c) implies a.contains(c) || b.contains(c) by {
        let i = choose|i: int| 0 <= i < (a + b).len() && (a + b)[i] == c;
        if i < a.len() {
            assert(a[i] == c);
        } else {
            assert(b[i - a.len()] == c);
        }
    }
}

/// The words of the grammar fit on a line.
proof fn lemma_words()
    ensures
        on_a_line(ADD@),
        on_a_line(DELETE@),
        on_a_line(UPDATE@),
        on_a_line(MOVE@),
        on_a_line(BEGIN@),
        on_a_line(END@),
        on_a_line(EOF_MARKER@),
        on_a_line("@@"@),
        on_a_line("@@ "@),
        on_a_line(seq![' ']),
        on_a_line(seq!['+']),
        on_a_line(seq!['-']),
{
    reveal_strlit("*** Add File: ");
    reveal_strlit("*** Delete File: ");
    reveal_strlit("*** Update File: ");
    reveal_strlit("*** Move to: ");
    reveal_strlit("*** Begin Patch");
    reveal_strlit("*** End Patch");
    reveal_strlit("*** End of File");
    reveal_strlit("@@");
    reveal_strlit("@@ ");
}

/// The lines of a hunk fit on lines.
proof fn lemma_hunk_fits(hunk: HunkView, last: bool)
    requires
        writable_hunk(hunk, last),
    ensures
        forall|i: int| 0 <= i < hunk_lines(hunk).len() ==> on_a_line(#[trigger] hunk_lines(hunk)[i]),
{
    lemma_words();
    let all = hunk_lines(hunk);
    assert forall|i: int| 0 <= i < all.len() implies on_a_line(#[trigger] all[i]) by {
        if i == 0 {
            if let Some(header) = hunk.header {
                lemma_on_a_line("@@ "@, header);
            }
        } else if i <= hunk.ops.len() {
            let op = hunk.ops[i - 1];
            assert(all[i] == op_line(op));
            assert(on_a_line(op_text(op)));
            lemma_on_a_line(seq![' '], op_text(op));
            lemma_on_a_line(seq!['+'], op_text(op));
            lemma_on_a_line(seq!['-'], op_text(op));
        }
    }
}

/// The lines of some hunks fit on lines.
proof fn lemma_hunks_fit(hunks: Seq<HunkView>)
    requires
        forall|i: int|
            0 <= i < hunks.len() ==> writable_hunk(#[trigger] hunks[i], i == hunks.len() - 1),
    ensures
        forall|i: int|
            0 <= i < hunks_lines(hunks).len() ==> on_a_line(#[trigger] hunks_lines(hunks)[i]),
    decreases hunks.len(),
{
    if hunks.len() > 0 {
        assert(writable_hunk(hunks[0], 0 == hunks.len() - 1));
        lemma_hunk_fits(hunks[0], hunks.len() == 1);
        let rest = hunks.drop_first();
        assert forall|i: int| 0 <= i < rest.len() implies writable_hunk(
            #[trigger] rest[i],
            i == rest.len() - 1,
        ) by {
            assert(rest[i] == hunks[i + 1]);
        }
        lemma_hunks_fit(rest);
        let first = hunk_lines(hunks[0]);
        let all = hunks_lines(hunks);
        assert forall|i: int| 0 <= i < all.len() implies on_a_line(#[trigger] all[i]) by {
            if i < first.len() {
                assert(all[i] == first[i]);
            } else {
                assert(all[i] == hunks_lines(rest)[i - first.len()]);
            }
        }
    }
}

/// The pieces of a text hold nothing that the text does not hold, and not what it is cut at.
proof fn lemma_pieces_of_text(s: Seq<char>, c: char)
    ensures
        split_on(s, c).len() > 0,
        forall|i: int, d: char|
            0 <= i < split_on(s, c).len() && #[trigger] split_on(s, c)[i].contains(d)
                ==> s.contains(d) && d != c,
    decreases s.len(),
{
    let all = split_on(s, c);
    if s.len() > 0 {
        let init = s.drop_last();
        lemma_pieces_of_text(init, c);
        let before = split_on(init, c);
        assert forall|i: int, d: char|
            0 <= i < all.len() && #[trigger] all[i].contains(d) implies s.contains(d) && d != c by {
            if i < all.len() - 1 {
                assert(all[i] == before[i]);
                assert(before[i].contains(d));
                let k = choose|k: int| 0 <= k < init.len() && init[k] == d;
                assert(s[k] == d);
            } else if s.last() != c {
                let piece = before.last();
                assert(all[i] == piece.push(s.last()));
                let k = choose|k: int| 0 <= k < all[i].len() && all[i][k] == d;
                if k < piece.len() {
                    assert(piece[k] == d);
                    assert(before[before.len() - 1].contains(d));
                    let j = choose|j: int| 0 <= j < init.len() && init[j] == d;
                    assert(s[j] == d);
                } else {
                    assert(s[s.len() - 1] == d);
                }
            }
        }
    }
}

/// The lines of a section fit on lines.
proof fn lemma_section_fits(section: SectionView)
    requires
        writable(section),
    ensures
        forall|i: int|
            0 <= i < section_lines(section).len() ==> on_a_line(#[trigger] section_lines(section)[i]),
{
    lemma_words();
    let all = section_lines(section);
    match section {
        SectionView::Add { path, contents } => {
            lemma_on_a_line(ADD@, path);
            lemma_pieces_of_text(contents, '\n');
            let pieces = split_on(contents, '\n');
            assert forall|i: int| 0 <= i < all.len() implies on_a_line(#[trigger] all[i]) by {
                if i > 0 {
                    assert(all[i] == seq!['+'] + pieces[i - 1]);
                    assert(!pieces[i - 1].contains('\n'));
                    assert(!pieces[i - 1].contains('\r'));
                    lemma_on_a_line(seq!['+'], pieces[i - 1]);
                }
            }
        },
        SectionView::Delete { path } => {
            lemma_on_a_line(DELETE@, path);
        },
        SectionView::Update { path, move_to, hunks } => {
            lemma_on_a_line(UPDATE@, path);
            if let Some(target) = move_to {
                lemma_on_a_line(MOVE@, target);
            }
            lemma_hunks_fit(hunks);
            let moving: Seq<Seq<char>> = match move_to {
                Some(target) => seq![MOVE@ + target],
                None => Seq::empty(),
            };
            let n = 1 + moving.len();
            assert forall|i: int| 0 <= i < all.len() implies on_a_line(#[trigger] all[i]) by {
                if i >= n {
                    assert(all[i] == hunks_lines(hunks)[i - n]);
                } else if i == 1 {
                    assert(all[i] == moving[0]);
                }
            }
        },
    }
}

/// The lines of some sections fit on lines.
proof fn lemma_sections_fit(sections: Seq<SectionView>)
    requires
        forall|i: int| 0 <= i < sections.len() ==> writable(#[trigger] sections[i]),
    ensures
        forall|i: int|
            0 <= i < sections_lines(sections).len() ==> on_a_line(
                #[trigger] sections_lines(sections)[i],
            ),
    decreases sections.len(),
{
    if sections.len() > 0 {
        assert(writable(sections[0]));
        lemma_section_fits(sections[0]);
        let rest = sections.drop_first();
        assert forall|i: int| 0 <= i < rest.len() implies writable(#[trigger] rest[i]) by {
            assert(rest[i] == sections[i + 1]);
        }
        lemma_sections_fit(rest);
        let first = section_lines(sections[0]);
        let all = sections_lines(sections);
        assert forall|i: int| 0 <= i < all.len() implies on_a_line(#[trigger] all[i]) by {
            if i < first.len() {
                assert(all[i] == first[i]);
            } else {
                assert(all[i] == sections_lines(rest)[i - first.len()]);
            }
        }
    }
}

/// Lines that were written are the lines that are read.
proof fn lemma_lines_read(lines: Seq<Seq<char>>)
    requires
        lines.len() > 0,
        forall|i: int| 0 <= i < lines.len() ==> on_a_line(#[trigger] lines[i]),
        lines[0] == BEGIN@,
        lines.last() == END@,
    ensures
        patch_lines(joined(lines, seq!['\n']) + "\n"@) == lines,
{
    reveal_strlit("\n");
    reveal_strlit("*** Begin Patch");
    reveal_strlit("*** End Patch");
    let body = joined(lines, seq!['\n']);
    let whole = body + "\n"@;
    crate::paths::lemma_joined_starts(lines, seq!['\n']);
    assert(body[0] == BEGIN@[0]) by {
        assert(body.take(lines[0].len() as int)[0] == lines[0][0]);
    }
    assert(whole[0] == '*');
    assert(breaks_trimmed_start(whole) == whole);
    assert(body.last() == 'h') by {
        if lines.len() > 1 {
            assert(body =~= joined(lines.drop_last(), seq!['\n']) + seq!['\n'] + lines.last());
        } else {
            assert(body =~= lines.last());
        }
    }
    assert(whole.drop_last() =~= body);
    assert(breaks_trimmed_end(whole) == breaks_trimmed_end(body));
    assert(breaks_trimmed_end(body) == body);
    assert forall|i: int| 0 <= i < lines.len() implies !(#[trigger] lines[i]).contains('\n') by {
        assert(on_a_line(lines[i]));
    }
    lemma_split_undoes_join(lines, '\n');
    let pieces = split_on(body, '\n');
    assert(pieces == lines);
    assert forall|i: int| 0 <= i < lines.len() implies text::without_cr(#[trigger] lines[i])
        == lines[i] && returns_trimmed(lines[i]) == lines[i] by {
        assert(on_a_line(lines[i]));
        if lines[i].len() > 0 && lines[i].last() == '\r' {
            assert(lines[i].contains('\r'));
        }
    }
    assert(lines_of(body) =~= lines);
    assert(patch_lines(whole) =~= lines);
}

/// What is written in the grammar is read back as it was meant: every patch that can be written,
/// of whatever sections, parses to just those sections.
pub proof fn a_patch_reads_back(sections: Seq<SectionView>)
    requires
        sections.len() > 0,
        forall|i: int| 0 <= i < sections.len() ==> writable(#[trigger] sections[i]),
    ensures
        parsed(written(sections)) == Ok::<Seq<SectionView>, Seq<char>>(sections),
{
    let lines = envelope(sections);
    lemma_sections_fit(sections);
    lemma_words();
    assert forall|i: int| 0 <= i < lines.len() implies on_a_line(#[trigger] lines[i]) by {
        if 0 < i < lines.len() - 1 {
            assert(lines[i] == sections_lines(sections)[i - 1]);
        }
    }
    lemma_lines_read(lines);
    lemma_headers(seq!['x']);
    let rest = sections_lines(sections) + seq![END@];
    assert(lines.subrange(1, rest.len() + 1int) =~= rest);
    lemma_sections(lines, 1, sections, Seq::empty());
    assert(Seq::<SectionView>::empty() + sections =~= sections);
}

} // verus!
