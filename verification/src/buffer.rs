//! The editing buffer: a sequence of lines addressed by 1-based line numbers,
//! and the commands that read or change it.
use vstd::prelude::*;
use vstd::string::*;
use crate::text::{trim, trimmed, spaces, push_spaces, chars_of, string_of_range};
use crate::pattern::{CompiledPattern, regex_replace_first, regex_matches, regex_is_match, regex_replace, regex_compiles, compile_pattern};

verus! {

/// The text of each line of a buffer.
pub open spec fn view_lines(b: Seq<String>) -> Seq<Seq<char>> {
    b.map_values(|s: String| s@)
}

/// What checking a line number against a buffer finds.
#[derive(PartialEq, Eq, Structural, Clone, Copy, Debug)]
pub enum LineCheck {
    /// The line exists.
    Present,
    /// The number is below 1.
    InvalidLine,
    /// The buffer has no lines.
    NoContents,
    /// The number is past the last line of a non-empty buffer.
    NoLine,
}

/// The outcome of checking line `line_number` in a buffer of `len` lines.
pub open spec fn line_check(len: nat, line_number: int) -> LineCheck {
    if line_number < 1 {
        LineCheck::InvalidLine
    } else if line_number <= len {
        LineCheck::Present
    } else if len == 0 {
        LineCheck::NoContents
    } else {
        LineCheck::NoLine
    }
}

/// Checks whether `line_number` names a line of `file_buffer`, and if not, why.
pub fn check_if_line_in_buffer(file_buffer: &Vec<String>, line_number: usize) -> (r: LineCheck)
    ensures
        r == line_check(file_buffer@.len(), line_number as int),
{
    if line_number < 1 {
        LineCheck::InvalidLine
    } else if line_number <= file_buffer.len() {
        LineCheck::Present
    } else if file_buffer.is_empty() {
        LineCheck::NoContents
    } else {
        LineCheck::NoLine
    }
}

/// What an edit that takes a typed line (insert, replace) did.
#[derive(PartialEq, Eq, Structural, Clone, Copy, Debug)]
pub enum EditOutcome {
    /// The line number was refused; the buffer is unchanged.
    Rejected(LineCheck),
    /// The edit was made.
    Applied,
    /// The typed line was blank; the buffer is unchanged.
    Cancelled,
}

/// Inserts the trimmed `input` as line `line_number`, moving that line and the
/// ones after it down by one. A blank `input` cancels the insertion.
pub fn insert(file_buffer: &mut Vec<String>, line_number: usize, input: &str) -> (r: EditOutcome)
    ensures
        ({
            let check = line_check(old(file_buffer)@.len(), line_number as int);
            &&& check != LineCheck::Present ==> r == EditOutcome::Rejected(check)
                && final(file_buffer)@ == old(file_buffer)@
            &&& check == LineCheck::Present && trimmed(input@).len() == 0 ==> r
                == EditOutcome::Cancelled && final(file_buffer)@ == old(file_buffer)@
            &&& check == LineCheck::Present && trimmed(input@).len() > 0 ==> r
                == EditOutcome::Applied && view_lines(final(file_buffer)@) == view_lines(
                old(file_buffer)@,
            ).insert(line_number - 1, trimmed(input@))
        }),
{
    let check = check_if_line_in_buffer(file_buffer, line_number);
    if check != LineCheck::Present {
        return EditOutcome::Rejected(check);
    }
    let index = line_number - 1;
    let line = trim(input);
    if !line.as_str().is_empty() {
        let ghost before = file_buffer@;
        file_buffer.insert(index, line);
        assert(view_lines(file_buffer@) =~= view_lines(before).insert(index as int, trimmed(input@)));
        EditOutcome::Applied
    } else {
        EditOutcome::Cancelled
    }
}

/// Replaces line `line_number` with the trimmed `input`. A blank `input`
/// cancels the replacement.
pub fn replace(file_buffer: &mut Vec<String>, line_number: usize, input: &str) -> (r: EditOutcome)
    ensures
        ({
            let check = line_check(old(file_buffer)@.len(), line_number as int);
            &&& check != LineCheck::Present ==> r == EditOutcome::Rejected(check)
                && final(file_buffer)@ == old(file_buffer)@
            &&& check == LineCheck::Present && trimmed(input@).len() == 0 ==> r
                == EditOutcome::Cancelled && final(file_buffer)@ == old(file_buffer)@
            &&& check == LineCheck::Present && trimmed(input@).len() > 0 ==> r
                == EditOutcome::Applied && view_lines(final(file_buffer)@) == view_lines(
                old(file_buffer)@,
            ).update(line_number - 1, trimmed(input@))
        }),
{
    let check = check_if_line_in_buffer(file_buffer, line_number);
    if check != LineCheck::Present {
        return EditOutcome::Rejected(check);
    }
    let index = line_number - 1;
    let line = trim(input);
    if !line.as_str().is_empty() {
        let ghost before = file_buffer@;
        file_buffer.insert(index, line);
        file_buffer.remove(index + 1);
        assert(view_lines(file_buffer@) =~= view_lines(before).update(index as int, trimmed(input@)));
        EditOutcome::Applied
    } else {
        EditOutcome::Cancelled
    }
}

/// `s` with the items at `i` and `j` exchanged.
pub open spec fn swapped<A>(s: Seq<A>, i: int, j: int) -> Seq<A> {
    s.update(i, s[j]).update(j, s[i])
}

/// What the swap command did.
#[derive(PartialEq, Eq, Structural, Clone, Copy, Debug)]
pub enum SwapOutcome {
    /// One of the line numbers (given beside the check) was refused; the source
    /// is checked first. The buffer is unchanged.
    Rejected(LineCheck, usize),
    /// Both numbers name the same line; the buffer is unchanged.
    SameLine,
    /// The two lines were exchanged.
    Swapped,
}

/// Exchanges lines `source_line` and `target_line`.
pub fn swap(file_buffer: &mut Vec<String>, source_line: usize, target_line: usize) -> (r:
    SwapOutcome)
    ensures
        ({
            let cs = line_check(old(file_buffer)@.len(), source_line as int);
            let ct = line_check(old(file_buffer)@.len(), target_line as int);
            &&& cs != LineCheck::Present ==> r == SwapOutcome::Rejected(cs, source_line)
            &&& cs == LineCheck::Present && ct != LineCheck::Present ==> r
                == SwapOutcome::Rejected(ct, target_line)
            &&& cs == LineCheck::Present && ct == LineCheck::Present && source_line == target_line
                ==> r == SwapOutcome::SameLine
            &&& r == SwapOutcome::Swapped <==> (cs == LineCheck::Present && ct
                == LineCheck::Present && source_line != target_line)
            &&& r != SwapOutcome::Swapped ==> final(file_buffer)@ == old(file_buffer)@
            &&& r == SwapOutcome::Swapped ==> final(file_buffer)@ == swapped(
                old(file_buffer)@,
                source_line - 1,
                target_line - 1,
            )
        }),
{
    let cs = check_if_line_in_buffer(file_buffer, source_line);
    if cs != LineCheck::Present {
        return SwapOutcome::Rejected(cs, source_line);
    }
    let ct = check_if_line_in_buffer(file_buffer, target_line);
    if ct != LineCheck::Present {
        return SwapOutcome::Rejected(ct, target_line);
    }
    if source_line == target_line {
        return SwapOutcome::SameLine;
    }
    let source_index = source_line - 1;
    let target_index = target_line - 1;
    let source = file_buffer[source_index].clone();
    let target = file_buffer[target_index].clone();
    file_buffer.set(source_index, target);
    file_buffer.set(target_index, source);
    SwapOutcome::Swapped
}

/// Removes line `line_number` from the buffer.
pub fn delete(file_buffer: &mut Vec<String>, line_number: usize) -> (r: LineCheck)
    ensures
        r == line_check(old(file_buffer)@.len(), line_number as int),
        r == LineCheck::Present ==> final(file_buffer)@ == old(file_buffer)@.remove(
            line_number - 1,
        ),
        r != LineCheck::Present ==> final(file_buffer)@ == old(file_buffer)@,
{
    let check = check_if_line_in_buffer(file_buffer, line_number);
    if check == LineCheck::Present {
        file_buffer.remove(line_number - 1);
    }
    check
}

/// Replaces the leftmost match of `pattern` in line `line_number` with
/// `replacement` (capture groups expanded as the `regex` crate does).
pub fn substitute(
    file_buffer: &mut Vec<String>,
    line_number: usize,
    pattern: &CompiledPattern,
    replacement: &str,
) -> (r: LineCheck)
    ensures
        r == line_check(old(file_buffer)@.len(), line_number as int),
        r == LineCheck::Present ==> view_lines(final(file_buffer)@) == view_lines(
            old(file_buffer)@,
        ).update(
            line_number - 1,
            regex_replace_first(pattern@, old(file_buffer)@[line_number - 1]@, replacement@),
        ),
        r == LineCheck::Present && !regex_matches(pattern@, old(file_buffer)@[line_number - 1]@)
            ==> view_lines(final(file_buffer)@) == view_lines(old(file_buffer)@),
        r != LineCheck::Present ==> final(file_buffer)@ == old(file_buffer)@,
{
    let check = check_if_line_in_buffer(file_buffer, line_number);
    if check == LineCheck::Present {
        let index = line_number - 1;
        let ghost before = file_buffer@;
        let new_line = regex_replace(pattern, file_buffer[index].as_str(), replacement);
        file_buffer.set(index, new_line);
        assert(view_lines(file_buffer@) =~= view_lines(before).update(
            index as int,
            regex_replace_first(pattern@, before[index as int]@, replacement@),
        ));
    }
    check
}

/// The number of spaces at the start of `line`.
pub open spec fn leading_spaces(line: Seq<char>) -> nat
    decreases line.len(),
{
    if line.len() > 0 && line[0] == ' ' {
        1 + leading_spaces(line.drop_first())
    } else {
        0
    }
}

/// A line indented by `level` spaces.
pub open spec fn indented(line: Seq<char>, level: nat) -> Seq<char> {
    spaces(level) + line
}

/// A line outdented by `level`: up to `level` of its leading spaces are
/// removed, and nothing else.
pub open spec fn outdented(line: Seq<char>, level: nat) -> Seq<char> {
    let k = if level <= leading_spaces(line) {
        level
    } else {
        leading_spaces(line)
    };
    line.subrange(k as int, line.len() as int)
}

/// The level of an outdent by a negative indentation.
pub open spec fn outdent_level(indentation: isize) -> nat {
    (-indentation) as nat
}

/// What the indent command did.
#[derive(PartialEq, Eq, Structural, Clone, Copy, Debug)]
pub enum IndentOutcome {
    /// The line number was refused; the buffer is unchanged.
    Rejected(LineCheck),
    /// The level was 0; the buffer is unchanged.
    InvalidLevel,
    /// The line was indented or outdented.
    Indented,
}

/// Indents line `line_number` by `indentation` spaces when it is positive; when
/// it is negative, removes up to `-indentation` of the line's leading spaces.
pub fn indent(file_buffer: &mut Vec<String>, line_number: usize, indentation: isize) -> (r:
    IndentOutcome)
    ensures
        ({
            let check = line_check(old(file_buffer)@.len(), line_number as int);
            &&& check != LineCheck::Present ==> r == IndentOutcome::Rejected(check)
            &&& check == LineCheck::Present && indentation == 0 ==> r == IndentOutcome::InvalidLevel
            &&& check == LineCheck::Present && indentation != 0 ==> r == IndentOutcome::Indented
            &&& r != IndentOutcome::Indented ==> final(file_buffer)@ == old(file_buffer)@
            &&& r == IndentOutcome::Indented && indentation > 0 ==> view_lines(final(file_buffer)@)
                == view_lines(old(file_buffer)@).update(
                line_number - 1,
                indented(old(file_buffer)@[line_number - 1]@, indentation as nat),
            )
            &&& r == IndentOutcome::Indented && indentation < 0 ==> view_lines(final(file_buffer)@)
                == view_lines(old(file_buffer)@).update(
                line_number - 1,
                outdented(old(file_buffer)@[line_number - 1]@, outdent_level(indentation)),
            )
        }),
{
    let check = check_if_line_in_buffer(file_buffer, line_number);
    if check != LineCheck::Present {
        return IndentOutcome::Rejected(check);
    }
    if indentation == 0 {
        return IndentOutcome::InvalidLevel;
    }
    let index = line_number - 1;
    let ghost before = file_buffer@;
    let ghost old_line = before[index as int]@;
    let new_line;
    if indentation > 0 {
        let mut line = String::new();
        push_spaces(&mut line, indentation as usize);
        line.append(file_buffer[index].as_str());
        assert(line@ =~= indented(old_line, indentation as nat));
        new_line = line;
    } else {
        let v = chars_of(file_buffer[index].as_str());
        let n = v.len();
        let level: usize = (0 - (indentation + 1)) as usize + 1;
        assert(level == outdent_level(indentation));
        let mut k: usize = 0;
        assert(v@.subrange(0, n as int) =~= v@);
        while k < level && k < n && v[k] == ' '
            invariant
                k <= level,
                k <= n == v@.len(),
                v@ == old_line,
                leading_spaces(old_line) == k + leading_spaces(v@.subrange(k as int, n as int)),
            decreases n - k,
        {
            assert(v@.subrange(k as int, n as int).drop_first() =~= v@.subrange(k + 1, n as int));
            k = k + 1;
        }
        new_line = string_of_range(&v, k, n);
        assert(new_line@ =~= outdented(old_line, level as nat));
    }
    file_buffer.set(index, new_line);
    assert(view_lines(file_buffer@) =~= view_lines(before).update(index as int, new_line@));
    IndentOutcome::Indented
}

/// What the show command displays.
pub enum ShowResult {
    /// The buffer has no lines.
    NoContents,
    /// The lines asked for, each with its line number.
    Lines(Vec<(usize, String)>),
}

/// The lines from `start_point` to `end_point` (both counted from 1, both
/// included), each paired with its line number.
pub fn show(file_buffer: &Vec<String>, start_point: usize, end_point: usize) -> (r: ShowResult)
    requires
        file_buffer@.len() >= 1 ==> 1 <= start_point && start_point - 1 <= end_point
            <= file_buffer@.len(),
    ensures
        r is NoContents <==> file_buffer@.len() == 0,
        r matches ShowResult::Lines(v) ==> {
            &&& v@.len() == end_point - start_point + 1
            &&& forall|k: int|
                0 <= k < v@.len() ==> (#[trigger] v@[k]).0 == start_point + k && v@[k].1@
                    == file_buffer@[start_point - 1 + k]@
        },
{
    if file_buffer.len() < 1 {
        return ShowResult::NoContents;
    }
    let mut contents: Vec<(usize, String)> = Vec::new();
    let mut count: usize = start_point - 1;
    while count < end_point
        invariant
            start_point - 1 <= count <= end_point <= file_buffer@.len(),
            1 <= start_point,
            contents@.len() == count - (start_point - 1),
            forall|k: int|
                0 <= k < contents@.len() ==> (#[trigger] contents@[k]).0 == start_point + k
                    && contents@[k].1@ == file_buffer@[start_point - 1 + k]@,
        decreases end_point - count,
    {
        let line = file_buffer[count].clone();
        count = count + 1;
        contents.push((count, line));
    }
    ShowResult::Lines(contents)
}

/// The numbers (counted from 1, in increasing order) of the lines of `lines`
/// in which `pattern` matches.
pub open spec fn matching_line_numbers(lines: Seq<Seq<char>>, pattern: Seq<char>) -> Seq<int>
    decreases lines.len(),
{
    if lines.len() == 0 {
        seq![]
    } else {
        let earlier = matching_line_numbers(lines.drop_last(), pattern);
        if regex_matches(pattern, lines.last()) {
            earlier.push(lines.len() as int)
        } else {
            earlier
        }
    }
}

/// The numbers of the lines in which `pattern` matches.
pub fn search(file_buffer: &Vec<String>, pattern: &CompiledPattern) -> (r: Vec<usize>)
    ensures
        r@.len() == matching_line_numbers(view_lines(file_buffer@), pattern@).len(),
        forall|k: int|
            0 <= k < r@.len() ==> r@[k] == #[trigger] matching_line_numbers(
                view_lines(file_buffer@),
                pattern@,
            )[k],
{
    let mut found: Vec<usize> = Vec::new();
    let n = file_buffer.len();
    let mut i: usize = 0;
    while i < n
        invariant
            i <= n == file_buffer@.len(),
            found@.len() == matching_line_numbers(view_lines(file_buffer@).take(i as int), pattern@).len(),
            forall|k: int|
                0 <= k < found@.len() ==> found@[k] == #[trigger] matching_line_numbers(
                    view_lines(file_buffer@).take(i as int),
                    pattern@,
                )[k],
        decreases n - i,
    {
        assert(view_lines(file_buffer@).take(i + 1).drop_last() =~= view_lines(file_buffer@).take(i as int));
        if regex_is_match(pattern, file_buffer[i].as_str()) {
            found.push(i + 1);
        }
        i = i + 1;
    }
    assert(view_lines(file_buffer@).take(n as int) =~= view_lines(file_buffer@));
    found
}

/// What the substitute command did with a pattern given as text.
#[derive(PartialEq, Eq, Structural, Clone, Copy, Debug)]
pub enum SubstituteOutcome {
    /// The line number was refused; the buffer is unchanged.
    Rejected(LineCheck),
    /// The line exists but the `regex` crate refuses the pattern; the buffer is
    /// unchanged.
    InvalidPattern,
    /// The substitution was made (the line is unchanged where nothing matches).
    Substituted,
}

/// The substitute command: checks line `line_number` first, then compiles
/// `pattern`, then replaces its leftmost match in that line by `replacement`.
pub fn substitute_text(
    file_buffer: &mut Vec<String>,
    line_number: usize,
    pattern: &str,
    replacement: &str,
) -> (r: SubstituteOutcome)
    ensures
        ({
            let check = line_check(old(file_buffer)@.len(), line_number as int);
            &&& check != LineCheck::Present ==> r == SubstituteOutcome::Rejected(check)
            &&& check == LineCheck::Present && !regex_compiles(pattern@) ==> r
                == SubstituteOutcome::InvalidPattern
            &&& check == LineCheck::Present && regex_compiles(pattern@) ==> r
                == SubstituteOutcome::Substituted
            &&& r != SubstituteOutcome::Substituted ==> final(file_buffer)@ == old(file_buffer)@
            &&& r == SubstituteOutcome::Substituted ==> view_lines(final(file_buffer)@)
                == view_lines(old(file_buffer)@).update(
                line_number - 1,
                regex_replace_first(pattern@, old(file_buffer)@[line_number - 1]@, replacement@),
            )
        }),
{
    let check = check_if_line_in_buffer(file_buffer, line_number);
    if check != LineCheck::Present {
        return SubstituteOutcome::Rejected(check);
    }
    match compile_pattern(pattern) {
        None => SubstituteOutcome::InvalidPattern,
        Some(p) => {
            substitute(file_buffer, line_number, &p, replacement);
            SubstituteOutcome::Substituted
        },
    }
}

/// The search command: compiles `term` and gives the numbers of the lines in
/// which it matches; `None` when the `regex` crate refuses the term.
pub fn search_text(file_buffer: &Vec<String>, term: &str) -> (r: Option<Vec<usize>>)
    ensures
        r is Some <==> regex_compiles(term@),
        r matches Some(v) ==> {
            &&& v@.len() == matching_line_numbers(view_lines(file_buffer@), term@).len()
            &&& forall|k: int|
                0 <= k < v@.len() ==> v@[k] == #[trigger] matching_line_numbers(
                    view_lines(file_buffer@),
                    term@,
                )[k]
        },
{
    match compile_pattern(term) {
        None => None,
        Some(p) => Some(search(file_buffer, &p)),
    }
}

} // verus!
