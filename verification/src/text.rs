//! Small text helpers shared by the serializer and the source rewriters.

use vstd::prelude::*;

verus! {

/// Appends one character to `s`.
///
/// Wraps `String::push`: afterwards the text is the old text followed by `c`.
#[verifier::external_body]
pub(crate) fn push_char(s: &mut String, c: char)
    ensures
        final(s)@ == old(s)@.push(c),
{
    s.push(c);
}

/// Appends `tail` to `s`.
pub(crate) fn push_text(s: &mut String, tail: &str)
    ensures
        final(s)@ == old(s)@ + tail@,
{
    s.append(tail);
}

/// Whether two texts hold the same characters.
pub(crate) fn same_text(a: &str, b: &str) -> (same: bool)
    ensures
        same == (a@ == b@),
{
    let left = a.to_owned();
    let right = b.to_owned();
    left == right
}

/// The lines, each followed by a line feed, one after the other.
pub open spec fn joined(lines: Seq<Seq<char>>) -> Seq<char>
    decreases lines.len(),
{
    if lines.len() == 0 {
        Seq::empty()
    } else {
        joined(lines.drop_last()) + lines.last() + "\n"@
    }
}

/// Appends `line` and a line feed to `out`. `written` is what `out` held
/// before, line by line.
pub(crate) fn push_line(out: &mut String, line: &str, Ghost(written): Ghost<Seq<Seq<char>>>)
    requires
        old(out)@ == joined(written),
    ensures
        final(out)@ == joined(written.push(line@)),
{
    push_text(out, line);
    push_text(out, "\n");
    assert(written.push(line@).drop_last() =~= written);
    assert(out@ =~= joined(written) + line@ + "\n"@);
}

/// The texts of a list of strings, in order.
pub open spec fn texts(items: Seq<String>) -> Seq<Seq<char>> {
    items.map_values(|item: String| item@)
}

/// `line` without the carriage return at its end, if it ends in one.
pub open spec fn without_return(line: Seq<char>) -> Seq<char> {
    if line.len() > 0 && line.last() == '\r' {
        line.drop_last()
    } else {
        line
    }
}

/// Reading `text` from the left: the lines that a line feed has closed so
/// far, and the characters read since the last line feed.
pub open spec fn scanned(text: Seq<char>) -> (Seq<Seq<char>>, Seq<char>)
    decreases text.len(),
{
    if text.len() == 0 {
        (Seq::empty(), Seq::empty())
    } else {
        let (closed, open) = scanned(text.drop_last());
        if text.last() == '\n' {
            (closed.push(without_return(open)), Seq::empty())
        } else {
            (closed, open.push(text.last()))
        }
    }
}

/// The lines of `text`. A line ends at a line feed, or at a carriage return
/// followed by a line feed; neither belongs to the line. What follows the
/// last line feed is a line too unless it is empty.
pub open spec fn lines(text: Seq<char>) -> Seq<Seq<char>> {
    let (closed, open) = scanned(text);
    if open.len() > 0 {
        closed.push(open)
    } else {
        closed
    }
}

/// `line` without the carriage return at its end, if it ends in one.
fn strip_return(line: &str) -> (stripped: String)
    ensures
        stripped@ == without_return(line@),
{
    let mut stripped = String::new();
    let mut held = false;
    for c in it: line.chars()
        invariant
            it.seq() == line@,
            held ==> it.index() > 0 && line@[it.index() - 1] == '\r' && stripped@
                == line@.take(it.index() - 1),
            !held ==> stripped@ == line@.take(it.index() as int) && (it.index() > 0 ==> line@[it.index()
                - 1] != '\r'),
    {
        let ghost i = it.index() as int;
        if held {
            push_char(&mut stripped, '\r');
        }
        held = c == '\r';
        if !held {
            push_char(&mut stripped, c);
        }
        assert(line@.take(i + 1) =~= line@.take(i).push(line@[i]));
        assert(i > 0 ==> line@.take(i) =~= line@.take(i - 1).push(line@[i - 1]));
    }
    assert(line@.take(line@.len() as int) =~= line@);
    assert(held ==> line@.take(line@.len() - 1) =~= line@.drop_last());
    stripped
}

/// Splits `text` into its lines.
pub fn split_lines(text: &str) -> (result: Vec<String>)
    ensures
        texts(result@) == lines(text@),
{
    let mut closed: Vec<String> = Vec::new();
    let mut open = String::new();
    assert(text@.take(0) =~= Seq::empty());
    assert(texts(closed@) =~= Seq::empty());
    for c in it: text.chars()
        invariant
            it.seq() == text@,
            scanned(text@.take(it.index() as int)) == (texts(closed@), open@),
    {
        let ghost i = it.index() as int;
        let ghost before = texts(closed@);
        assert(text@.take(i + 1).drop_last() =~= text@.take(i));
        assert(text@.take(i + 1).last() == c);
        if c == '\n' {
            let line = strip_return(open.as_str());
            closed.push(line);
            open = String::new();
            assert(texts(closed@) =~= before.push(line@));
        } else {
            push_char(&mut open, c);
        }
    }
    assert(text@.take(text@.len() as int) =~= text@);
    if open.as_str().unicode_len() > 0 {
        let ghost before = texts(closed@);
        closed.push(open);
        assert(texts(closed@) =~= before.push(open@));
    }
    closed
}

/// Whether `line` is one line in itself: it holds no line feed, and does
/// not end in a carriage return.
pub open spec fn is_one_line(line: Seq<char>) -> bool {
    &&& forall|i: int| 0 <= i < line.len() ==> #[trigger] line[i] != '\n'
    &&& line.len() > 0 ==> line.last() != '\r'
}

/// Reading on through a text without a line feed closes no line.
proof fn lemma_scanned_on(text: Seq<char>, more: Seq<char>)
    requires
        forall|i: int| 0 <= i < more.len() ==> #[trigger] more[i] != '\n',
    ensures
        scanned(text + more) == (scanned(text).0, scanned(text).1 + more),
    decreases more.len(),
{
    if more.len() == 0 {
        assert(text + more =~= text);
        assert(scanned(text).1 + more =~= scanned(text).1);
    } else {
        let shorter = more.drop_last();
        assert((text + more).drop_last() =~= text + shorter);
        assert((text + more).last() == more.last());
        assert(more[more.len() - 1] != '\n');
        lemma_scanned_on(text, shorter);
        assert(scanned(text).1 + more =~= (scanned(text).1 + shorter).push(more.last()));
    }
}

/// Lines that are written one after the other, each followed by a line
/// feed, are read back as they were written.
pub proof fn lemma_lines_of_joined(written: Seq<Seq<char>>)
    requires
        forall|i: int| 0 <= i < written.len() ==> is_one_line(#[trigger] written[i]),
    ensures
        scanned(joined(written)) == (written, Seq::<char>::empty()),
        lines(joined(written)) == written,
    decreases written.len(),
{
    if written.len() > 0 {
        let before = written.drop_last();
        let line = written.last();
        assert(is_one_line(line));
        assert forall|i: int| 0 <= i < before.len() implies is_one_line(#[trigger] before[i]) by {
            assert(before[i] == written[i]);
        }
        lemma_lines_of_joined(before);
        lemma_scanned_on(joined(before), line);
        reveal_strlit("\n");
        let text = joined(written);
        assert(text =~= (joined(before) + line).push('\n'));
        assert(text.drop_last() =~= joined(before) + line);
        assert(Seq::<char>::empty() + line =~= line);
        assert(before.push(line) =~= written);
    }
}

} // verus!
