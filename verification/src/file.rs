//! The buffer as the text of a file: joining lines to save them, and
//! splitting a file's text into lines when it is opened.
use vstd::prelude::*;
use vstd::string::*;
use crate::buffer::view_lines;
use crate::text::{push_char, chars_of, string_of_range, join_with};

verus! {

/// The lines joined with a newline between each two of them (no newline after
/// the last one).
pub open spec fn joined(lines: Seq<Seq<char>>) -> Seq<char> {
    join_with(lines, '\n')
}

/// `line` without one trailing carriage return, if it has one.
pub open spec fn strip_cr(line: Seq<char>) -> Seq<char> {
    if line.len() > 0 && line.last() == '\r' {
        line.drop_last()
    } else {
        line
    }
}

/// Reading `text` from the start: the lines that ended in a newline so far
/// (each without its newline, and without the carriage return just before
/// it), and the characters read since the last newline.
pub open spec fn scan_lines(text: Seq<char>) -> (Seq<Seq<char>>, Seq<char>)
    decreases text.len(),
{
    if text.len() == 0 {
        (seq![], seq![])
    } else {
        let (done, current) = scan_lines(text.drop_last());
        if text.last() == '\n' {
            (done.push(strip_cr(current)), seq![])
        } else {
            (done, current.push(text.last()))
        }
    }
}

/// The lines of `text`, as `str::lines` gives them: split at each `\n` or
/// `\r\n`, with the line ending removed; a last line without an ending counts
/// when it is not empty.
pub open spec fn text_lines(text: Seq<char>) -> Seq<Seq<char>> {
    let (done, current) = scan_lines(text);
    if current.len() > 0 {
        done.push(current)
    } else {
        done
    }
}

/// The text that saving the buffer writes: its lines joined by newlines, or
/// `None` when the buffer is empty and there is nothing to save.
pub fn save_text(buffer_contents: &Vec<String>) -> (r: Option<String>)
    ensures
        r is None <==> buffer_contents@.len() == 0,
        r matches Some(s) ==> s@ == joined(view_lines(buffer_contents@)),
{
    if buffer_contents.is_empty() {
        return None;
    }
    let ghost lines = view_lines(buffer_contents@);
    let mut content = String::new();
    content.append(buffer_contents[0].as_str());
    assert(lines.take(1) =~= seq![lines[0]]);
    let n = buffer_contents.len();
    let mut i: usize = 1;
    while i < n
        invariant
            1 <= i <= n == buffer_contents@.len(),
            lines == view_lines(buffer_contents@),
            content@ == joined(lines.take(i as int)),
        decreases n - i,
    {
        push_char(&mut content, '\n');
        content.append(buffer_contents[i].as_str());
        assert(lines.take(i + 1).drop_last() =~= lines.take(i as int));
        i = i + 1;
    }
    assert(lines.take(n as int) =~= lines);
    Some(content)
}

/// The lines of a file's text, as opening the file loads them into the buffer.
pub fn open_lines(contents: &str) -> (r: Vec<String>)
    ensures
        view_lines(r@) == text_lines(contents@),
{
    let v = chars_of(contents);
    let n = v.len();
    let mut lines: Vec<String> = Vec::new();
    let mut start: usize = 0;
    let mut i: usize = 0;
    while i < n
        invariant
            start <= i <= n == v@.len(),
            v@ == contents@,
            view_lines(lines@) == scan_lines(v@.take(i as int)).0,
            scan_lines(v@.take(i as int)).1 == v@.subrange(start as int, i as int),
        decreases n - i,
    {
        let ghost prev = lines@;
        assert(v@.take(i + 1).drop_last() =~= v@.take(i as int));
        if v[i] == '\n' {
            let end = if i > start && v[i - 1] == '\r' {
                i - 1
            } else {
                i
            };
            let line = string_of_range(&v, start, end);
            assert(line@ =~= crate::file::strip_cr(v@.subrange(start as int, i as int)));
            lines.push(line);
            assert(view_lines(lines@) =~= view_lines(prev).push(line@));
            start = i + 1;
        } else {
            assert(v@.subrange(start as int, i + 1) =~= v@.subrange(start as int, i as int).push(v@[i as int]));
        }
        i = i + 1;
        assert(v@.subrange(start as int, i as int).len() == 0 ==> v@.subrange(start as int, i as int) =~= seq![]);
    }
    assert(v@.take(n as int) =~= v@);
    if start < n {
        let ghost prev = lines@;
        let line = string_of_range(&v, start, n);
        lines.push(line);
        assert(view_lines(lines@) =~= view_lines(prev).push(line@));
    } else {
        assert(v@.subrange(start as int, n as int) =~= seq![]);
    }
    lines
}

/// Whether `name` is `~` alone or starts with `~/` or `~\`: the names in which
/// a leading `~` may stand for the home directory.
pub open spec fn names_home(name: Seq<char>) -> bool {
    &&& name.len() > 0
    &&& name[0] == '~'
    &&& (name.len() == 1 || name[1] == '/' || name[1] == '\\')
}

/// Calls `shellexpand::tilde`. Trusted, as its source shows: a name that does
/// not start with `~` followed by nothing, `/` or `\` comes back unchanged; in
/// the others the `~` is replaced by the home directory when the system gives
/// one, and the name comes back unchanged when it gives none. Which home
/// directory comes is up to the environment and is not stated.
#[verifier::external_body]
fn shellexpand_tilde(name: &str) -> (r: String)
    ensures
        !names_home(name@) ==> r@ == name@,
        names_home(name@) ==> r@ == name@ || exists|home: Seq<char>|
            r@ == home + name@.drop_first(),
{
    shellexpand::tilde(name).into_owned()
}

/// The file name with a leading `~` standing for the home directory expanded.
pub fn expand_home(name: &str) -> (r: String)
    ensures
        !names_home(name@) ==> r@ == name@,
        names_home(name@) ==> r@ == name@ || exists|home: Seq<char>|
            r@ == home + name@.drop_first(),
{
    shellexpand_tilde(name)
}

} // verus!
