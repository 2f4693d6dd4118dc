//! Properties of the editor that span several operations, proved over the
//! specifications that the operations' contracts use.
use vstd::prelude::*;
use crate::text::{trimmed, trim_start, trim_end, is_white_space, join_with, split_on, scan_split};
use crate::buffer::{view_lines, swapped, indented, outdented, leading_spaces, outdent_level, matching_line_numbers};
use crate::file::{joined, scan_lines, text_lines, strip_cr};
use crate::pattern::{regex_matches, split_scan, split_pieces};
use crate::command::{command_spec, without_line_end, number_or_zero, CommandSpec};
use vstd::utf8::{encode_utf8, decode_utf8};

verus! {

/// Swapping the same two lines twice gives the buffer back.
pub proof fn law_swap_twice_restores<A>(s: Seq<A>, i: int, j: int)
    requires
        0 <= i < s.len(),
        0 <= j < s.len(),
    ensures
        swapped(swapped(s, i, j), i, j) == s,
{
    assert(swapped(swapped(s, i, j), i, j) =~= s);
}

/// Swapping line `i` with line `j` is the same as swapping `j` with `i`.
pub proof fn law_swap_is_symmetric<A>(s: Seq<A>, i: int, j: int)
    requires
        0 <= i < s.len(),
        0 <= j < s.len(),
    ensures
        swapped(s, i, j) == swapped(s, j, i),
{
    assert(swapped(s, i, j) =~= swapped(s, j, i));
}

/// Swapping lines keeps the same lines, as many times each, in a buffer of the
/// same length.
pub proof fn law_swap_keeps_lines<A>(s: Seq<A>, i: int, j: int)
    requires
        0 <= i < s.len(),
        0 <= j < s.len(),
    ensures
        swapped(s, i, j).len() == s.len(),
        swapped(s, i, j).to_multiset() == s.to_multiset(),
{
    broadcast use vstd::seq_lib::to_multiset_update, vstd::seq_lib::to_multiset_contains,
        vstd::multiset::group_multiset_axioms;

    let t = s.update(i, s[j]);
    assert(t.len() == s.len());
    assert(t[j] == s[j]);
    assert(s.contains(s[i]));
    assert(t.contains(s[j]));
    let m = s.to_multiset();
    assert(t.to_multiset() == m.insert(s[j]).remove(s[i]));
    assert(swapped(s, i, j) == t.update(j, s[i]));
    assert(swapped(s, i, j).to_multiset() == t.to_multiset().insert(s[i]).remove(s[j]));
    assert(swapped(s, i, j).to_multiset() =~= m);
}

/// Deleting the line that was just inserted gives the buffer back.
pub proof fn law_delete_undoes_insert(
    b0: Seq<String>,
    b1: Seq<String>,
    b2: Seq<String>,
    i: int,
    line: Seq<char>,
)
    requires
        0 <= i <= b0.len(),
        view_lines(b1) == view_lines(b0).insert(i, line),
        b2 == b1.remove(i),
    ensures
        view_lines(b2) == view_lines(b0),
{
    assert(view_lines(b1).len() == b1.len());
    assert(view_lines(b0).len() == b0.len());
    assert(b1.len() == b0.len() + 1);
    assert(view_lines(b2) =~= view_lines(b0)) by {
        assert forall|k: int| 0 <= k < b2.len() implies view_lines(b2)[k] == view_lines(b0)[k] by {
            if k < i {
                assert(view_lines(b1)[k] == view_lines(b0)[k]);
            } else {
                assert(view_lines(b1)[k + 1] == view_lines(b0)[k]);
            }
        }
    }
}

/// Trimming a trimmed text changes nothing.
pub proof fn law_trim_is_idempotent(s: Seq<char>)
    ensures
        trimmed(trimmed(s)) == trimmed(s),
{
    let a = trim_start(s);
    lemma_trim_start_shape(s);
    let t = trim_end(a);
    lemma_trim_end_shape(a);
    if t.len() > 0 {
        assert(t[0] == a[0]);
    }
    lemma_trim_start_of_unpadded(t);
    lemma_trim_end_of_unpadded(t);
}

proof fn lemma_trim_start_shape(s: Seq<char>)
    ensures
        trim_start(s).len() > 0 ==> !is_white_space(trim_start(s)[0]),
    decreases s.len(),
{
    if s.len() > 0 && is_white_space(s[0]) {
        lemma_trim_start_shape(s.drop_first());
    }
}

proof fn lemma_trim_end_shape(s: Seq<char>)
    ensures
        trim_end(s).len() > 0 ==> !is_white_space(trim_end(s).last()),
        exists|k: int| 0 <= k <= s.len() && trim_end(s) == s.take(k),
    decreases s.len(),
{
    if s.len() > 0 && is_white_space(s.last()) {
        lemma_trim_end_shape(s.drop_last());
        let k = choose|k: int| 0 <= k <= s.drop_last().len() && trim_end(s.drop_last()) == s.drop_last().take(k);
        assert(s.drop_last().take(k) =~= s.take(k));
    } else {
        assert(s.take(s.len() as int) =~= s);
    }
}

proof fn lemma_trim_start_of_unpadded(t: Seq<char>)
    requires
        t.len() > 0 ==> !is_white_space(t[0]),
    ensures
        trim_start(t) == t,
{
}

proof fn lemma_trim_end_of_unpadded(t: Seq<char>)
    requires
        t.len() > 0 ==> !is_white_space(t.last()),
    ensures
        trim_end(t) == t,
{
}

proof fn lemma_leading_spaces_of_indented(line: Seq<char>, level: nat)
    ensures
        leading_spaces(indented(line, level)) == level + leading_spaces(line),
    decreases level,
{
    if level > 0 {
        lemma_leading_spaces_of_indented(line, (level - 1) as nat);
        assert(indented(line, level).drop_first() =~= indented(line, (level - 1) as nat));
        assert(indented(line, level)[0] == ' ');
    } else {
        assert(indented(line, 0) =~= line);
    }
}

/// Indenting a line by `level` spaces and then outdenting it by the same level
/// gives the line back.
pub proof fn law_outdent_undoes_indent(line: Seq<char>, level: nat)
    ensures
        outdented(indented(line, level), level) == line,
{
    lemma_leading_spaces_of_indented(line, level);
    assert(outdented(indented(line, level), level) =~= line);
}

proof fn lemma_scan_lines_plain_suffix(p: Seq<char>, l: Seq<char>)
    requires
        !l.contains('\n'),
    ensures
        scan_lines(p + l) == (scan_lines(p).0, scan_lines(p).1 + l),
    decreases l.len(),
{
    if l.len() == 0 {
        assert(p + l =~= p);
        assert(scan_lines(p).1 + l =~= scan_lines(p).1);
    } else {
        let l0 = l.drop_last();
        assert(!l0.contains('\n')) by {
            if l0.contains('\n') {
                let k = choose|k: int| 0 <= k < l0.len() && l0[k] == '\n';
                assert(l[k] == '\n');
            }
        }
        lemma_scan_lines_plain_suffix(p, l0);
        assert((p + l).drop_last() =~= p + l0);
        assert((p + l).last() == l.last());
        assert(l.last() != '\n') by {
            assert(l[l.len() - 1] == l.last());
        }
        assert(scan_lines(p).1 + l0 + seq![l.last()] =~= scan_lines(p).1 + l);
    }
}

/// The lines that are followed by a newline when joined: no newline inside, no
/// carriage return at the end.
pub open spec fn joinable_line(line: Seq<char>) -> bool {
    !line.contains('\n') && !(line.len() > 0 && line.last() == '\r')
}

proof fn lemma_scan_joined(lines: Seq<Seq<char>>)
    requires
        lines.len() >= 1,
        forall|k: int| 0 <= k < lines.len() - 1 ==> joinable_line(#[trigger] lines[k]),
        !lines.last().contains('\n'),
    ensures
        scan_lines(joined(lines)) == (lines.drop_last(), lines.last()),
    decreases lines.len(),
{
    if lines.len() == 1 {
        lemma_scan_lines_plain_suffix(seq![], lines[0]);
        assert(seq![] + lines[0] =~= lines[0]);
        assert(scan_lines(seq![]) == (Seq::<Seq<char>>::empty(), Seq::<char>::empty()));
        assert(Seq::<char>::empty() + lines[0] =~= lines[0]);
        assert(lines.drop_last() =~= seq![]);
    } else {
        let init = lines.drop_last();
        assert(init.last() == lines[lines.len() - 2]);
        assert(joinable_line(lines[lines.len() - 2]));
        lemma_scan_joined(init);
        let x = joined(init) + seq!['\n'];
        assert(x.drop_last() =~= joined(init));
        assert(scan_lines(x) == (init.drop_last().push(strip_cr(init.last())), Seq::<char>::empty()));
        assert(init.drop_last().push(init.last()) =~= init);
        lemma_scan_lines_plain_suffix(x, lines.last());
        assert(Seq::<char>::empty() + lines.last() =~= lines.last());
    }
}

/// Saving a buffer and opening the saved text gives the same lines back, when
/// no line holds a newline, no line but the last ends with a carriage return,
/// and the last line is not empty.
pub proof fn law_open_reads_back_save(lines: Seq<Seq<char>>)
    requires
        lines.len() >= 1,
        forall|k: int| 0 <= k < lines.len() - 1 ==> joinable_line(#[trigger] lines[k]),
        !lines.last().contains('\n'),
        lines.last().len() > 0,
    ensures
        text_lines(joined(lines)) == lines,
{
    lemma_scan_joined(lines);
    assert(lines.drop_last().push(lines.last()) =~= lines);
}

/// The search finds exactly the lines in which the pattern matches: its line
/// numbers are increasing, each names a line of the buffer in which the pattern
/// matches, and every such line is among them.
pub proof fn law_search_finds_matching_lines(lines: Seq<Seq<char>>, pattern: Seq<char>)
    ensures
        forall|a: int, b: int|
            0 <= a < b < matching_line_numbers(lines, pattern).len() ==> #[trigger] matching_line_numbers(
                lines,
                pattern,
            )[a] < #[trigger] matching_line_numbers(lines, pattern)[b],
        forall|k: int|
            0 <= k < matching_line_numbers(lines, pattern).len() ==> {
                let n = #[trigger] matching_line_numbers(lines, pattern)[k];
                &&& 1 <= n <= lines.len()
                &&& regex_matches(pattern, lines[n - 1])
            },
        forall|i: int|
            0 <= i < lines.len() && regex_matches(pattern, #[trigger] lines[i])
                ==> matching_line_numbers(lines, pattern).contains(i + 1),
    decreases lines.len(),
{
    if lines.len() > 0 {
        let init = lines.drop_last();
        law_search_finds_matching_lines(init, pattern);
        let e = matching_line_numbers(init, pattern);
        let m = matching_line_numbers(lines, pattern);
        assert forall|k: int| 0 <= k < e.len() implies #[trigger] e[k] <= init.len() && regex_matches(pattern, lines[e[k] - 1]) by {
            assert(init[e[k] - 1] == lines[e[k] - 1]);
        }
        assert forall|i: int|
            0 <= i < lines.len() && regex_matches(pattern, #[trigger] lines[i]) implies m.contains(i + 1) by {
            if i < lines.len() - 1 {
                assert(init[i] == lines[i]);
                assert(e.contains(i + 1));
                let k = choose|k: int| 0 <= k < e.len() && e[k] == i + 1;
                assert(m[k] == i + 1);
            } else {
                assert(m[m.len() - 1] == i + 1);
            }
        }
    }
}

/// Splitting a text at a separator and joining the parts with that separator
/// gives the text back.
pub proof fn law_join_undoes_split(s: Seq<char>, sep: char)
    ensures
        join_with(split_on(s, sep), sep) == s,
    decreases s.len(),
{
    if s.len() == 0 {
        assert(split_on(s, sep) =~= seq![Seq::<char>::empty()]);
        assert(s =~= Seq::<char>::empty());
    } else {
        let p = s.drop_last();
        law_join_undoes_split(p, sep);
        let (d, c) = scan_split(p, sep);
        assert(split_on(p, sep) == d.push(c));
        assert(d.push(c).drop_last() =~= d);
        if s.last() == sep {
            let parts = d.push(c).push(Seq::<char>::empty());
            assert(parts.drop_last() =~= d.push(c));
            assert(join_with(parts, sep) =~= p + seq![sep]);
            assert(p + seq![sep] =~= s);
        } else {
            let parts = d.push(c.push(s.last()));
            assert(parts.drop_last() =~= d);
            if d.len() == 0 {
                assert(join_with(d.push(c), sep) == c);
                assert(s =~= c.push(s.last()));
            } else {
                assert(join_with(d.push(c), sep) == join_with(d, sep) + seq![sep] + c);
                assert(join_with(parts, sep) =~= p.push(s.last()));
                assert(p.push(s.last()) =~= s);
            }
        }
    }
}

/// Inserting back, at the same place, the line that was just deleted gives the
/// buffer back, when that line is not blank and has no whitespace around it
/// (the insert trims what it is given).
pub proof fn law_insert_undoes_delete(b0: Seq<String>, b1: Seq<String>, b2: Seq<String>, i: int)
    requires
        0 <= i < b0.len(),
        b1 == b0.remove(i),
        trimmed(b0[i]@) == b0[i]@,
        view_lines(b2) == view_lines(b1).insert(i, trimmed(b0[i]@)),
    ensures
        view_lines(b2) == view_lines(b0),
{
    assert(view_lines(b1).len() == b1.len());
    assert(view_lines(b2).len() == b2.len());
    assert(view_lines(b2) =~= view_lines(b0)) by {
        assert forall|k: int| 0 <= k < b0.len() implies view_lines(b2)[k] == view_lines(b0)[k] by {
            if k < i {
                assert(view_lines(b1)[k] == view_lines(b0)[k]);
            } else if k > i {
                assert(view_lines(b1)[k - 1] == view_lines(b0)[k]);
            }
        }
    }
}

/// Swapping lines `i` and `j` puts each of the two in the other's place and
/// leaves the buffer's length and every other line as they were.
pub proof fn law_swap_touches_only_the_two_lines<A>(s: Seq<A>, i: int, j: int)
    requires
        0 <= i < s.len(),
        0 <= j < s.len(),
    ensures
        swapped(s, i, j).len() == s.len(),
        swapped(s, i, j)[i] == s[j],
        swapped(s, i, j)[j] == s[i],
        forall|k: int| 0 <= k < s.len() && k != i && k != j ==> #[trigger] swapped(s, i, j)[k] == s[k],
{
}

/// The leading spaces of a line are exactly the spaces before its first
/// character that is not a space.
pub proof fn law_leading_spaces_are_the_first_spaces(line: Seq<char>)
    ensures
        leading_spaces(line) <= line.len(),
        forall|i: int| 0 <= i < leading_spaces(line) ==> #[trigger] line[i] == ' ',
        leading_spaces(line) < line.len() ==> line[leading_spaces(line) as int] != ' ',
    decreases line.len(),
{
    if line.len() > 0 && line[0] == ' ' {
        let t = line.drop_first();
        law_leading_spaces_are_the_first_spaces(t);
        assert forall|i: int| 0 <= i < leading_spaces(line) implies #[trigger] line[i] == ' ' by {
            if i > 0 {
                assert(line[i] == t[i - 1]);
            }
        }
        if leading_spaces(line) < line.len() {
            assert(line[leading_spaces(line) as int] == t[leading_spaces(t) as int]);
        }
    }
}

/// Outdenting by a negative indentation `x` uses the level `-x`, and removes
/// the first `min(-x, leading spaces)` characters of the line, all of them
/// spaces, and nothing else; indenting by `n` puts `n` spaces before the line
/// and changes nothing else.
pub proof fn law_indent_and_outdent_shape(line: Seq<char>, x: isize, n: nat)
    requires
        x < 0,
    ensures
        outdent_level(x) == -x,
        ({
            let k = if -x <= leading_spaces(line) { -x } else { leading_spaces(line) as int };
            &&& outdented(line, outdent_level(x)) == line.subrange(k, line.len() as int)
            &&& forall|i: int| 0 <= i < k ==> #[trigger] line[i] == ' '
        }),
        indented(line, n).len() == n + line.len(),
        forall|i: int| 0 <= i < n ==> #[trigger] indented(line, n)[i] == ' ',
        forall|i: int| 0 <= i < line.len() ==> #[trigger] indented(line, n)[n + i] == line[i],
{
    law_leading_spaces_are_the_first_spaces(line);
}

/// A final line ending adds no line: a non-empty text that does not end in a
/// newline or carriage return has the same lines with one newline added.
pub proof fn law_final_newline_adds_no_line(t: Seq<char>)
    requires
        t.len() > 0,
        t.last() != '\n',
        t.last() != '\r',
    ensures
        text_lines(t.push('\n')) == text_lines(t),
{
    assert(t.push('\n').drop_last() =~= t);
    let (done, cur) = scan_lines(t);
    assert(cur == scan_lines(t.drop_last()).1.push(t.last()));
    assert(cur.len() > 0 && cur.last() == t.last());
    assert(strip_cr(cur) == cur);
}

/// Saving lines, adding a final newline, and opening the text gives the same
/// lines back, under the conditions of `law_open_reads_back_save` with the last
/// line not ending in a carriage return either.
pub proof fn law_open_reads_back_save_with_final_newline(lines: Seq<Seq<char>>)
    requires
        lines.len() >= 1,
        forall|k: int| 0 <= k < lines.len() ==> joinable_line(#[trigger] lines[k]),
        lines.last().len() > 0,
    ensures
        text_lines(joined(lines).push('\n')) == lines,
{
    assert(joinable_line(lines[lines.len() - 1]));
    assert(!lines.last().contains('\n'));
    law_open_reads_back_save(lines);
    let j = joined(lines);
    assert(j.len() > 0 && j.last() == lines.last().last()) by {
        if lines.len() == 1 {
        } else {
            assert(j == join_with(lines.drop_last(), '\n') + seq!['\n'] + lines.last());
        }
    }
    assert(lines.last().last() == lines.last()[lines.last().len() - 1]);
    assert(lines.last().last() != '\n');
    law_final_newline_adds_no_line(j);
}

/// The number of backslash bytes that come right before byte `i` of `b`.
pub open spec fn backslashes_before(b: Seq<u8>, i: int) -> nat
    decreases i,
{
    if 0 < i <= b.len() && b[i - 1] == 0x5cu8 {
        1 + backslashes_before(b, i - 1)
    } else {
        0
    }
}

/// A backslash escapes exactly the one byte after it: after the first `i`
/// bytes, the next byte is escaped exactly when an odd number of backslashes
/// come right before it (so `\\` is an escaped backslash, and a slash after
/// it is not escaped).
pub proof fn law_escape_follows_odd_backslash_runs(b: Seq<u8>, i: nat)
    requires
        i <= b.len(),
    ensures
        split_scan(b, i).2 <==> backslashes_before(b, i as int) % 2 == 1,
    decreases i,
{
    if i > 0 {
        law_escape_follows_odd_backslash_runs(b, (i - 1) as nat);
        if split_scan(b, (i - 1) as nat).2 {
            assert(i - 1 > 0 && b[i - 2] == 0x5cu8);
        }
    }
}

/// Bytes that are neither a slash nor a backslash change nothing in the scan
/// but the piece they extend.
proof fn lemma_split_scan_plain(b: Seq<u8>, a: nat, i: nat)
    requires
        a <= i <= b.len(),
        !split_scan(b, a).2,
        forall|k: int| a <= k < i ==> #[trigger] b[k] != 0x2fu8 && b[k] != 0x5cu8,
    ensures
        split_scan(b, i) == (split_scan(b, a).0, split_scan(b, a).1, false),
    decreases i,
{
    if i > a {
        lemma_split_scan_plain(b, a, (i - 1) as nat);
    }
}

/// Whether no byte of `x` is a slash or a backslash.
pub open spec fn plain_bytes(x: Seq<u8>) -> bool {
    forall|k: int| 0 <= k < x.len() ==> #[trigger] x[k] != 0x2fu8 && x[k] != 0x5cu8
}

/// A single unescaped slash between two plain texts splits them into a pattern
/// and a replacement.
pub proof fn law_one_slash_splits_in_two(x: Seq<u8>, y: Seq<u8>)
    requires
        plain_bytes(x),
        plain_bytes(y),
        y.len() > 0,
    ensures
        split_pieces(x + seq![0x2fu8] + y) == seq![x, y],
{
    let b = x + seq![0x2fu8] + y;
    let n = x.len();
    assert forall|k: int| 0 <= k < n implies #[trigger] b[k] != 0x2fu8 && b[k] != 0x5cu8 by {
        assert(b[k] == x[k]);
    }
    lemma_split_scan_plain(b, 0, n);
    assert(b[n as int] == 0x2fu8);
    assert(b.subrange(0, n as int) =~= x);
    assert forall|k: int| n + 1 <= k < b.len() implies #[trigger] b[k] != 0x2fu8 && b[k] != 0x5cu8 by {
        assert(b[k] == y[k - n - 1]);
    }
    lemma_split_scan_plain(b, n + 1, b.len());
    assert(b.subrange((n + 1) as int, b.len() as int) =~= y);
    assert(seq![x].push(y) =~= seq![x, y]);
}

/// A backslash escapes the one byte after it, whatever that byte is, and no
/// more: in `x\cy/z`, with `x`, `y`, `z` plain, the slash still splits, and the
/// escape and the escaped byte stay in the pattern.
pub proof fn law_backslash_escapes_one_byte(x: Seq<u8>, c: u8, y: Seq<u8>, z: Seq<u8>)
    requires
        plain_bytes(x),
        plain_bytes(y),
        plain_bytes(z),
        z.len() > 0,
    ensures
        split_pieces(x + seq![0x5cu8, c] + y + seq![0x2fu8] + z) == seq![
            x + seq![0x5cu8, c] + y,
            z,
        ],
{
    let p = x + seq![0x5cu8, c] + y;
    let b = p + seq![0x2fu8] + z;
    let n = x.len();
    let m = p.len();
    assert forall|k: int| 0 <= k < n implies #[trigger] b[k] != 0x2fu8 && b[k] != 0x5cu8 by {
        assert(b[k] == x[k]);
    }
    lemma_split_scan_plain(b, 0, n);
    assert(b[n as int] == 0x5cu8);
    assert(split_scan(b, n + 1).2);
    assert(!split_scan(b, n + 2).2);
    assert(split_scan(b, n + 2).0 == Seq::<Seq<u8>>::empty());
    assert(split_scan(b, n + 2).1 == 0);
    assert forall|k: int| n + 2 <= k < m implies #[trigger] b[k] != 0x2fu8 && b[k] != 0x5cu8 by {
        assert(b[k] == y[k - n - 2]);
    }
    lemma_split_scan_plain(b, n + 2, m);
    assert(b[m as int] == 0x2fu8);
    assert(b.subrange(0, m as int) =~= p);
    assert forall|k: int| m + 1 <= k < b.len() implies #[trigger] b[k] != 0x2fu8 && b[k] != 0x5cu8 by {
        assert(b[k] == z[k - m - 1]);
    }
    lemma_split_scan_plain(b, m + 1, b.len());
    assert(b.subrange((m + 1) as int, b.len() as int) =~= z);
    assert(seq![p].push(z) =~= seq![p, z]);
}

proof fn lemma_without_line_end_of_concat(p: Seq<char>, r: Seq<char>)
    requires
        p.len() > 0,
        p.last() != '\r',
        p.last() != '\n',
    ensures
        without_line_end(p + r) == p + without_line_end(r),
    decreases r.len(),
{
    if r.len() == 0 {
        assert(p + r =~= p);
        assert(p + without_line_end(r) =~= p);
    } else {
        assert((p + r).drop_last() =~= p + r.drop_last());
        assert((p + r).last() == r.last());
        if r.last() == '\r' || r.last() == '\n' {
            lemma_without_line_end_of_concat(p, r.drop_last());
        }
    }
}

proof fn lemma_without_line_end_first(r: Seq<char>)
    ensures
        without_line_end(r).len() <= r.len(),
        without_line_end(r).len() > 0 ==> without_line_end(r)[0] == r[0],
    decreases r.len(),
{
    if r.len() > 0 && (r.last() == '\r' || r.last() == '\n') {
        lemma_without_line_end_first(r.drop_last());
    }
}

proof fn lemma_scan_split_after_sep(a: Seq<char>, b: Seq<char>, sep: char)
    ensures
        scan_split(a + seq![sep] + b, sep) == (split_on(a, sep) + scan_split(b, sep).0, scan_split(
            b,
            sep,
        ).1),
    decreases b.len(),
{
    let x = a + seq![sep] + b;
    if b.len() == 0 {
        assert(x.drop_last() =~= a);
        assert(split_on(a, sep) + Seq::<Seq<char>>::empty() =~= split_on(a, sep));
    } else {
        lemma_scan_split_after_sep(a, b.drop_last(), sep);
        assert(x.drop_last() =~= a + seq![sep] + b.drop_last());
        assert(x.last() == b.last());
        let prev = scan_split(b.drop_last(), sep);
        assert((split_on(a, sep) + prev.0).push(prev.1) =~= split_on(a, sep) + prev.0.push(prev.1));
    }
}

proof fn lemma_split_on_after_sep(a: Seq<char>, b: Seq<char>, sep: char)
    ensures
        split_on(a + seq![sep] + b, sep) == split_on(a, sep) + split_on(b, sep),
{
    lemma_scan_split_after_sep(a, b, sep);
    let sb = scan_split(b, sep);
    assert((split_on(a, sep) + sb.0).push(sb.1) =~= split_on(a, sep) + sb.0.push(sb.1));
}

proof fn lemma_split_on_without_sep(p: Seq<char>, sep: char)
    requires
        !p.contains(sep),
    ensures
        split_on(p, sep) == seq![p],
        scan_split(p, sep) == (Seq::<Seq<char>>::empty(), p),
    decreases p.len(),
{
    if p.len() > 0 {
        let q = p.drop_last();
        assert(!q.contains(sep)) by {
            if q.contains(sep) {
                let k = choose|k: int| 0 <= k < q.len() && q[k] == sep;
                assert(p[k] == sep);
            }
        }
        lemma_split_on_without_sep(q, sep);
        assert(p[p.len() - 1] == p.last());
        assert(q.push(p.last()) =~= p);
    } else {
        assert(p =~= Seq::<char>::empty());
    }
    assert(Seq::<Seq<char>>::empty().push(p) =~= seq![p]);
}

/// The words of `head` followed by `rest`, when `head` has no space and no
/// line end and `rest` is empty or starts with a space: `head`, then the same
/// words whatever `head` is.
proof fn lemma_words_after_head(head: Seq<char>, rest: Seq<char>)
    requires
        head.len() > 0,
        !head.contains(' '),
        head.last() != '\r',
        head.last() != '\n',
        rest.len() == 0 || rest[0] == ' ',
    ensures
        without_line_end(head + rest) == head + without_line_end(rest),
        split_on(without_line_end(head + rest), ' ') == seq![head] + (if without_line_end(rest).len()
            == 0 {
            Seq::<Seq<char>>::empty()
        } else {
            split_on(without_line_end(rest).drop_first(), ' ')
        }),
{
    lemma_without_line_end_of_concat(head, rest);
    lemma_without_line_end_first(rest);
    lemma_split_on_without_sep(head, ' ');
    let r = without_line_end(rest);
    if r.len() == 0 {
        assert(head + r =~= head);
        assert(seq![head] + Seq::<Seq<char>>::empty() =~= seq![head]);
    } else {
        assert(r[0] == ' ');
        assert(head + r =~= head + seq![' '] + r.drop_first());
        lemma_split_on_after_sep(head, r.drop_first(), ' ');
    }
}

proof fn lemma_command_words_differ()
    ensures
        "~sub"@ != "~"@, "~sub"@ != "~help"@, "~sub"@ != "~about"@, "~sub"@ != "~clear"@,
        "~sub"@ != "~save"@, "~sub"@ != "~show"@, "~sub"@ != "~open"@, "~sub"@ != "~run"@,
        "~sub"@ != "~bsod"@, "~sub"@ != "~insert"@, "~sub"@ != "~replace"@, "~sub"@ != "~swap"@,
        "~sub"@ != "~del"@, "~sub"@ != "~delete"@,
        "~substitute"@ != "~"@, "~substitute"@ != "~help"@, "~substitute"@ != "~about"@,
        "~substitute"@ != "~clear"@, "~substitute"@ != "~save"@, "~substitute"@ != "~show"@,
        "~substitute"@ != "~open"@, "~substitute"@ != "~run"@, "~substitute"@ != "~bsod"@,
        "~substitute"@ != "~insert"@, "~substitute"@ != "~replace"@, "~substitute"@ != "~swap"@,
        "~substitute"@ != "~del"@, "~substitute"@ != "~delete"@,
        !"~sub"@.contains(' '), !"~substitute"@.contains(' '),
        "~sub"@.len() == 4, "~sub"@.last() == 'b',
        "~substitute"@.len() == 11, "~substitute"@.last() == 'e',
{
    reveal_strlit("~sub");
    reveal_strlit("~substitute");
    reveal_strlit("~");
    reveal_strlit("~help");
    reveal_strlit("~about");
    reveal_strlit("~clear");
    reveal_strlit("~save");
    reveal_strlit("~show");
    reveal_strlit("~open");
    reveal_strlit("~run");
    reveal_strlit("~bsod");
    reveal_strlit("~insert");
    reveal_strlit("~replace");
    reveal_strlit("~swap");
    reveal_strlit("~del");
    reveal_strlit("~delete");
    assert("~substitute"@.len() != "~"@.len());
    assert("~substitute"@.len() != "~help"@.len());
    assert("~substitute"@.len() != "~about"@.len());
    assert("~substitute"@.len() != "~clear"@.len());
    assert("~substitute"@.len() != "~save"@.len());
    assert("~substitute"@.len() != "~show"@.len());
    assert("~substitute"@.len() != "~open"@.len());
    assert("~substitute"@.len() != "~run"@.len());
    assert("~substitute"@.len() != "~bsod"@.len());
    assert("~substitute"@.len() != "~insert"@.len());
    assert("~substitute"@.len() != "~replace"@.len());
    assert("~substitute"@.len() != "~swap"@.len());
    assert("~substitute"@.len() != "~del"@.len());
    assert("~substitute"@.len() != "~delete"@.len());
    assert("~sub"@[1] != "~run"@[1]);
    assert("~sub"@[1] != "~del"@[1]);
    assert("~sub"@[2] != "~save"@[2]);
    assert("~sub"@[2] != "~show"@[2]);
    assert("~sub"@[1] != "~open"@[1]);
    assert("~sub"@[1] != "~bsod"@[1]);
    assert("~sub"@[2] != "~swap"@[2]);
    assert("~sub"@[1] != "~help"@[1]);
    assert(!"~sub"@.contains(' ')) by {
        if "~sub"@.contains(' ') {
            let k = choose|k: int| 0 <= k < "~sub"@.len() && "~sub"@[k] == ' ';
        }
    }
    assert(!"~substitute"@.contains(' ')) by {
        if "~substitute"@.contains(' ') {
            let k = choose|k: int| 0 <= k < "~substitute"@.len() && "~substitute"@[k] == ' ';
        }
    }
}

/// `~sub` and `~substitute` name the same command: a typed line gives the same
/// command with either spelling of its first word.
pub proof fn law_sub_and_substitute_agree(rest: Seq<char>, buffer_len: usize)
    requires
        rest.len() == 0 || rest[0] == ' ',
    ensures
        command_spec("~sub"@ + rest, buffer_len) == command_spec("~substitute"@ + rest, buffer_len),
{
    lemma_command_words_differ();
    let a = "~sub"@;
    let b = "~substitute"@;
    lemma_words_after_head(a, rest);
    lemma_words_after_head(b, rest);
    let r = without_line_end(rest);
    let tail = if r.len() == 0 {
        Seq::<Seq<char>>::empty()
    } else {
        split_on(r.drop_first(), ' ')
    };
    let wa = seq![a] + tail;
    let wb = seq![b] + tail;
    assert(wa[0] == a);
    assert(wb[0] == b);
    assert(wa.len() == wb.len());
    assert forall|k: int| 1 <= k < wa.len() implies wa[k] == wb[k] by {
        assert(wa[k] == tail[k - 1]);
        assert(wb[k] == tail[k - 1]);
    }
    if wa.len() >= 2 {
        assert(wa.subrange(2, wa.len() as int) =~= wb.subrange(2, wb.len() as int));
    }
}

/// A substitute line made of a line number, then one word holding a pattern
/// and a replacement, gives the substitute command for that line with the
/// first two pieces of that word as pattern and replacement, when it has at
/// least two; with either spelling of the command.
pub proof fn law_substitute_line_gives_its_pieces(
    number: Seq<char>,
    arg: Seq<char>,
    buffer_len: usize,
)
    requires
        number.len() > 0,
        !number.contains(' '),
        arg.len() > 0,
        !arg.contains(' '),
        arg.last() != '\r',
        arg.last() != '\n',
        split_pieces(encode_utf8(arg)).len() >= 2,
    ensures
        ({
            let rest = seq![' '] + number + seq![' '] + arg;
            let pieces = split_pieces(encode_utf8(arg));
            let expected = CommandSpec::Substitute {
                line: number_or_zero(number),
                pattern: decode_utf8(pieces[0]),
                replacement: decode_utf8(pieces[1]),
            };
            &&& command_spec("~substitute"@ + rest, buffer_len) == expected
            &&& command_spec("~sub"@ + rest, buffer_len) == expected
        }),
{
    lemma_command_words_differ();
    let rest = seq![' '] + number + seq![' '] + arg;
    let head = "~substitute"@;
    assert(rest[0] == ' ');
    assert(without_line_end(rest) == rest) by {
        assert(rest.last() == arg.last());
        assert(rest.len() > 0);
    }
    lemma_words_after_head(head, rest);
    assert(rest.drop_first() =~= number + seq![' '] + arg);
    lemma_split_on_after_sep(number, arg, ' ');
    lemma_split_on_without_sep(number, ' ');
    lemma_split_on_without_sep(arg, ' ');
    let w = seq![head] + seq![number, arg];
    assert(split_on(without_line_end(head + rest), ' ') =~= w) by {
        assert(seq![number] + seq![arg] =~= seq![number, arg]);
    }
    assert(w.len() == 3);
    assert(w.subrange(2, 3) =~= seq![arg]);
    assert(join_with(seq![arg], ' ') == arg);
    law_sub_and_substitute_agree(rest, buffer_len);
}

/// The parts joined with a slash byte between each two of them.
pub open spec fn join_with_slash(parts: Seq<Seq<u8>>) -> Seq<u8>
    decreases parts.len(),
{
    if parts.len() == 0 {
        seq![]
    } else if parts.len() == 1 {
        parts[0]
    } else {
        join_with_slash(parts.drop_last()) + seq![0x2fu8] + parts.last()
    }
}

proof fn lemma_split_scan_without_backslash(b: Seq<u8>, i: nat)
    requires
        i <= b.len(),
        forall|k: int| 0 <= k < b.len() ==> #[trigger] b[k] != 0x5cu8,
    ensures
        !split_scan(b, i).2,
        0 <= split_scan(b, i).1 <= i,
        join_with_slash(split_scan(b, i).0.push(b.subrange(split_scan(b, i).1, i as int)))
            == b.subrange(0, i as int),
        forall|k: int|
            0 <= k < split_scan(b, i).0.len() ==> !(#[trigger] split_scan(b, i).0[k]).contains(
                0x2fu8,
            ),
        forall|k: int| split_scan(b, i).1 <= k < i ==> #[trigger] b[k] != 0x2fu8,
    decreases i,
{
    if i > 0 {
        let j = (i - 1) as int;
        lemma_split_scan_without_backslash(b, (i - 1) as nat);
        let (parts, start, esc) = split_scan(b, (i - 1) as nat);
        let prev = parts.push(b.subrange(start, j));
        if b[j] == 0x2fu8 {
            let np = parts.push(b.subrange(start, j));
            assert(split_scan(b, i) == (np, j + 1, false));
            let q = np.push(b.subrange(j + 1, i as int));
            assert(q.drop_last() =~= np);
            assert(b.subrange(j + 1, i as int) =~= Seq::<u8>::empty());
            assert(b.subrange(0, i as int) =~= b.subrange(0, j) + seq![0x2fu8]);
            assert(join_with_slash(q) =~= b.subrange(0, j) + seq![0x2fu8] + Seq::<u8>::empty());
            assert forall|k: int| 0 <= k < np.len() implies !(#[trigger] np[k]).contains(0x2fu8) by {
                if k == np.len() - 1 {
                    if np[k].contains(0x2fu8) {
                        let t = choose|t: int| 0 <= t < np[k].len() && np[k][t] == 0x2fu8;
                        assert(b[start + t] == 0x2fu8);
                    }
                } else {
                    assert(np[k] == parts[k]);
                }
            }
        } else {
            assert(split_scan(b, i) == (parts, start, false));
            let q = parts.push(b.subrange(start, i as int));
            assert(b.subrange(start, i as int) =~= b.subrange(start, j).push(b[j]));
            assert(b.subrange(0, i as int) =~= b.subrange(0, j).push(b[j]));
            if parts.len() == 0 {
                assert(join_with_slash(prev) == b.subrange(start, j));
            } else {
                assert(prev.drop_last() =~= parts);
                assert(q.drop_last() =~= parts);
                assert(join_with_slash(q) =~= join_with_slash(prev).push(b[j]));
            }
        }
    } else {
        assert(b.subrange(0, 0) =~= Seq::<u8>::empty());
    }
}

/// For a text without backslashes that does not end in a slash, the pieces
/// hold no slash, and joining them with slashes gives the text back: the text
/// is split at every slash and nowhere else.
pub proof fn law_pieces_rejoin_to_the_text(b: Seq<u8>)
    requires
        b.len() > 0,
        b.last() != 0x2fu8,
        forall|k: int| 0 <= k < b.len() ==> #[trigger] b[k] != 0x5cu8,
    ensures
        join_with_slash(split_pieces(b)) == b,
        forall|k: int| 0 <= k < split_pieces(b).len() ==> !(#[trigger] split_pieces(b)[k]).contains(0x2fu8),
{
    lemma_split_scan_without_backslash(b, b.len());
    let (parts, start, esc) = split_scan(b, b.len());
    assert(b.subrange(0, b.len() as int) =~= b);
    assert(b[b.len() - 1] == b.last());
    assert(start < b.len());
    let last = b.subrange(start, b.len() as int);
    assert(!last.contains(0x2fu8)) by {
        if last.contains(0x2fu8) {
            let t = choose|t: int| 0 <= t < last.len() && last[t] == 0x2fu8;
            assert(b[start + t] == 0x2fu8);
        }
    }
    assert forall|k: int| 0 <= k < split_pieces(b).len() implies !(#[trigger] split_pieces(b)[k]).contains(0x2fu8) by {
        if k < parts.len() {
            assert(split_pieces(b)[k] == parts[k]);
        }
    }
}

proof fn lemma_scan_split_first(x: Seq<char>, sep: char)
    ensures
        scan_split(x, sep).0.len() == 0 ==> (scan_split(x, sep).1.len() <= x.len() && (
        scan_split(x, sep).1.len() > 0 ==> scan_split(x, sep).1[0] == x[0])),
        scan_split(x, sep).0.len() > 0 ==> (scan_split(x, sep).0[0].len() > 0
            ==> scan_split(x, sep).0[0][0] == x[0]),
    decreases x.len(),
{
    if x.len() > 0 {
        let y = x.drop_last();
        lemma_scan_split_first(y, sep);
        if y.len() > 0 {
            assert(y[0] == x[0]);
        }
    }
}

proof fn lemma_command_words_start_with_tilde()
    ensures
        "~"@.len() > 0 && "~"@[0] == '~',
        "~help"@.len() > 0 && "~help"@[0] == '~',
        "~about"@.len() > 0 && "~about"@[0] == '~',
        "~clear"@.len() > 0 && "~clear"@[0] == '~',
        "~save"@.len() > 0 && "~save"@[0] == '~',
        "~show"@.len() > 0 && "~show"@[0] == '~',
        "~open"@.len() > 0 && "~open"@[0] == '~',
        "~run"@.len() > 0 && "~run"@[0] == '~',
        "~bsod"@.len() > 0 && "~bsod"@[0] == '~',
        "~insert"@.len() > 0 && "~insert"@[0] == '~',
        "~replace"@.len() > 0 && "~replace"@[0] == '~',
        "~swap"@.len() > 0 && "~swap"@[0] == '~',
        "~del"@.len() > 0 && "~del"@[0] == '~',
        "~delete"@.len() > 0 && "~delete"@[0] == '~',
        "~sub"@.len() > 0 && "~sub"@[0] == '~',
        "~substitute"@.len() > 0 && "~substitute"@[0] == '~',
        "~search"@.len() > 0 && "~search"@[0] == '~',
        "~indent"@.len() > 0 && "~indent"@[0] == '~',
        "~exit"@.len() > 0 && "~exit"@[0] == '~',
{
    reveal_strlit("~");
    assert("~"@[0] == '~');
    reveal_strlit("~help");
    assert("~help"@[0] == '~');
    reveal_strlit("~about");
    assert("~about"@[0] == '~');
    reveal_strlit("~clear");
    assert("~clear"@[0] == '~');
    reveal_strlit("~save");
    assert("~save"@[0] == '~');
    reveal_strlit("~show");
    assert("~show"@[0] == '~');
    reveal_strlit("~open");
    assert("~open"@[0] == '~');
    reveal_strlit("~run");
    assert("~run"@[0] == '~');
    reveal_strlit("~bsod");
    assert("~bsod"@[0] == '~');
    reveal_strlit("~insert");
    assert("~insert"@[0] == '~');
    reveal_strlit("~replace");
    assert("~replace"@[0] == '~');
    reveal_strlit("~swap");
    assert("~swap"@[0] == '~');
    reveal_strlit("~del");
    assert("~del"@[0] == '~');
    reveal_strlit("~delete");
    assert("~delete"@[0] == '~');
    reveal_strlit("~sub");
    assert("~sub"@[0] == '~');
    reveal_strlit("~substitute");
    assert("~substitute"@[0] == '~');
    reveal_strlit("~search");
    assert("~search"@[0] == '~');
    reveal_strlit("~indent");
    assert("~indent"@[0] == '~');
    reveal_strlit("~exit");
    assert("~exit"@[0] == '~');
}

/// A typed line that does not start with `~` is text: the command appends the
/// line, without its trailing line ends, to the buffer.
pub proof fn law_plain_line_is_text(line: Seq<char>, buffer_len: usize)
    requires
        line.len() > 0,
        line[0] != '~',
    ensures
        command_spec(line, buffer_len) == CommandSpec::Text(without_line_end(line)),
{
    lemma_command_words_start_with_tilde();
    lemma_without_line_end_first(line);
    let cmd = without_line_end(line);
    lemma_scan_split_first(cmd, ' ');
    let w = split_on(cmd, ' ');
    let head = w[0];
    assert(head.len() > 0 ==> head[0] != '~');
}

proof fn lemma_no_newline_in_scanned_lines(t: Seq<char>)
    ensures
        forall|k: int| 0 <= k < scan_lines(t).0.len() ==> !(#[trigger] scan_lines(t).0[k]).contains('\n'),
        !scan_lines(t).1.contains('\n'),
    decreases t.len(),
{
    if t.len() > 0 {
        lemma_no_newline_in_scanned_lines(t.drop_last());
        let (done, cur) = scan_lines(t.drop_last());
        if t.last() == '\n' {
            assert(!strip_cr(cur).contains('\n')) by {
                if strip_cr(cur).contains('\n') {
                    let k = choose|k: int| 0 <= k < strip_cr(cur).len() && strip_cr(cur)[k] == '\n';
                    assert(cur[k] == '\n');
                }
            }
            assert(forall|k: int| 0 <= k < done.len() ==> done.push(strip_cr(cur))[k] == done[k]);
            assert(!Seq::<char>::empty().contains('\n'));
        } else {
            assert(!cur.push(t.last()).contains('\n')) by {
                if cur.push(t.last()).contains('\n') {
                    let k = choose|k: int| 0 <= k < cur.push(t.last()).len() && cur.push(t.last())[k] == '\n';
                    if k < cur.len() {
                        assert(cur[k] == '\n');
                    }
                }
            }
        }
    }
}

/// No line read from a text holds a newline.
pub proof fn law_lines_hold_no_newline(t: Seq<char>)
    ensures
        forall|k: int| 0 <= k < text_lines(t).len() ==> !(#[trigger] text_lines(t)[k]).contains('\n'),
{
    lemma_no_newline_in_scanned_lines(t);
    let (done, cur) = scan_lines(t);
    assert(forall|k: int| 0 <= k < done.len() ==> done.push(cur)[k] == done[k]);
}

} // verus!
