//! Reading a typed line as an editor command: its words, its numbers, and
//! which command it names.
use vstd::prelude::*;
use vstd::utf8::*;
use crate::text::{chars_of, string_of_range, str_eq, split_on, split_at_char, join_with, join_from};
use crate::pattern::{split_pieces, split_pattern_replacement};

verus! {

/// Whether `c` is an ASCII decimal digit.
pub open spec fn is_digit(c: char) -> bool {
    '0' <= c <= '9'
}

/// Whether every character of `s` is a decimal digit.
pub open spec fn all_digits(s: Seq<char>) -> bool {
    forall|i: int| 0 <= i < s.len() ==> is_digit(#[trigger] s[i])
}

/// The number that the decimal digits `s` write.
pub open spec fn decimal_value(s: Seq<char>) -> nat
    decreases s.len(),
{
    if s.len() == 0 {
        0
    } else {
        decimal_value(s.drop_last()) * 10 + ((s.last() as nat) - ('0' as nat)) as nat
    }
}

/// `s` without one leading `+`.
pub open spec fn without_plus(s: Seq<char>) -> Seq<char> {
    if s.len() > 0 && s[0] == '+' {
        s.drop_first()
    } else {
        s
    }
}

/// What `s.parse::<usize>()` gives, as `Option`: an optional `+` followed by
/// at least one decimal digit and nothing else, whose value fits in a `usize`.
pub open spec fn parse_usize_spec(s: Seq<char>) -> Option<usize> {
    let d = without_plus(s);
    if d.len() > 0 && all_digits(d) && decimal_value(d) <= usize::MAX {
        Some(decimal_value(d) as usize)
    } else {
        None
    }
}

/// What `s.parse::<isize>()` gives, as `Option`: an optional `+` or `-`
/// followed by at least one decimal digit and nothing else, whose value fits in
/// an `isize`.
pub open spec fn parse_isize_spec(s: Seq<char>) -> Option<isize> {
    if s.len() > 0 && s[0] == '-' {
        let d = s.drop_first();
        if d.len() > 0 && all_digits(d) && decimal_value(d) <= isize::MAX + 1 {
            Some((0 - decimal_value(d)) as isize)
        } else {
            None
        }
    } else {
        let d = without_plus(s);
        if d.len() > 0 && all_digits(d) && decimal_value(d) <= isize::MAX {
            Some(decimal_value(d) as isize)
        } else {
            None
        }
    }
}

/// Reads the decimal digits `v[from..]` as a number no greater than `limit`;
/// `None` when one of them is not a digit, there are none, or the number is
/// greater than `limit`.
fn decimal_up_to(v: &Vec<char>, from: usize, limit: usize) -> (r: Option<usize>)
    requires
        from <= v@.len(),
    ensures
        ({
            let d = v@.subrange(from as int, v@.len() as int);
            &&& r is Some <==> (d.len() > 0 && all_digits(d) && decimal_value(d) <= limit)
            &&& r matches Some(x) ==> x == decimal_value(d)
        }),
{
    let n = v.len();
    if from == n {
        return None;
    }
    let mut acc: usize = 0;
    let mut over = false;
    let mut i = from;
    assert(v@.subrange(from as int, from as int) =~= seq![]);
    while i < n
        invariant
            from <= i <= n == v@.len(),
            all_digits(v@.subrange(from as int, i as int)),
            over ==> decimal_value(v@.subrange(from as int, i as int)) > limit,
            !over ==> acc == decimal_value(v@.subrange(from as int, i as int)) && acc <= limit,
        decreases n - i,
    {
        let c = v[i];
        assert(v@.subrange(from as int, i + 1).drop_last() =~= v@.subrange(from as int, i as int));
        if !('0' <= c && c <= '9') {
            assert(!all_digits(v@.subrange(from as int, n as int))) by {
                assert(v@.subrange(from as int, n as int)[i - from] == c);
            }
            return None;
        }
        let digit = (c as u32 - '0' as u32) as usize;
        if !over {
            match acc.checked_mul(10) {
                Some(t) => match t.checked_add(digit) {
                    Some(u) => {
                        if u <= limit {
                            acc = u;
                        } else {
                            over = true;
                        }
                    },
                    None => {
                        over = true;
                    },
                },
                None => {
                    over = true;
                },
            }
        }
        i = i + 1;
    }
    if over {
        None
    } else {
        Some(acc)
    }
}

/// Parses `s` as a `usize` the way `str::parse::<usize>` does; `None` where
/// that returns an error.
pub fn parse_usize(s: &str) -> (r: Option<usize>)
    ensures
        r == parse_usize_spec(s@),
{
    let v = chars_of(s);
    let from: usize = if v.len() > 0 && v[0] == '+' {
        1
    } else {
        0
    };
    assert(v@.subrange(from as int, v@.len() as int) =~= without_plus(s@));
    decimal_up_to(&v, from, usize::MAX)
}

/// Parses `s` as an `isize` the way `str::parse::<isize>` does; `None` where
/// that returns an error.
pub fn parse_isize(s: &str) -> (r: Option<isize>)
    ensures
        r == parse_isize_spec(s@),
{
    let v = chars_of(s);
    if v.len() > 0 && v[0] == '-' {
        assert(v@.subrange(1, v@.len() as int) =~= s@.drop_first());
        let limit: usize = (isize::MAX as usize) + 1;
        match decimal_up_to(&v, 1, limit) {
            Some(m) => {
                if m == 0 {
                    Some(0)
                } else {
                    let below: isize = (m - 1) as isize;
                    Some(-below - 1)
                }
            },
            None => None,
        }
    } else {
        let from: usize = if v.len() > 0 && v[0] == '+' {
            1
        } else {
            0
        };
        assert(v@.subrange(from as int, v@.len() as int) =~= without_plus(s@));
        match decimal_up_to(&v, from, isize::MAX as usize) {
            Some(m) => Some(m as isize),
            None => None,
        }
    }
}

/// `s` without the carriage returns and newlines at its end.
pub open spec fn without_line_end(s: Seq<char>) -> Seq<char>
    decreases s.len(),
{
    if s.len() > 0 && (s.last() == '\r' || s.last() == '\n') {
        without_line_end(s.drop_last())
    } else {
        s
    }
}

/// `s` without the carriage returns and newlines at its end
/// (`str::trim_end_matches(&['\r', '\n'][..])`).
pub fn strip_line_end(s: &str) -> (r: String)
    ensures
        r@ == without_line_end(s@),
{
    let v = chars_of(s);
    let mut end = v.len();
    assert(v@.subrange(0, end as int) =~= s@);
    while end > 0 && (v[end - 1] == '\r' || v[end - 1] == '\n')
        invariant
            end <= v@.len(),
            v@ == s@,
            without_line_end(s@) == without_line_end(v@.subrange(0, end as int)),
        decreases end,
    {
        assert(v@.subrange(0, end as int).drop_last() =~= v@.subrange(0, end - 1));
        end = end - 1;
    }
    string_of_range(&v, 0, end)
}

/// An editor command, as read from a typed line.
pub enum Command {
    /// `~`: list the command names.
    ListCommands,
    /// `~help`: describe each command.
    Help,
    /// `~about`: describe the editor.
    About,
    /// `~clear`: empty the buffer.
    Clear,
    /// `~save` without a file name.
    SaveWhere,
    /// `~save` with the file name (its words joined by spaces, before `~` is
    /// expanded to the home directory).
    Save(String),
    /// `~show`, with the first and last line to show; `None` where the typed
    /// argument is not a number.
    Show { start: Option<usize>, end: Option<usize> },
    /// `~open` without a file name.
    OpenWhat,
    /// `~open` with the file name (as for `Save`).
    Open(String),
    /// `~run`, with all the words of the line.
    Run(Vec<String>),
    /// `~bsod`: show the crash screen.
    Bsod,
    /// `~insert` without a line number.
    InsertWhere,
    /// `~insert` with its line number (0 where the argument is not a number).
    Insert(usize),
    /// `~replace` without a line number.
    ReplaceWhich,
    /// `~replace` with its line number (0 where the argument is not a number).
    Replace(usize),
    /// `~swap` without line numbers.
    SwapWhich,
    /// `~swap` with one argument, as typed.
    SwapWithWhat(String),
    /// `~swap` with its two line numbers (0 where an argument is not a number).
    Swap(usize, usize),
    /// `~delete` (or `~del`) without a line number.
    DeleteWhich,
    /// `~delete` (or `~del`) with its line number (0 where the argument is not a number).
    Delete(usize),
    /// `~substitute` (or `~sub`) without a line number.
    SubstituteWhichLine,
    /// `~substitute` (or `~sub`) without a pattern and a replacement.
    SubstituteWhat,
    /// `~substitute` (or `~sub`) with its line number (0 where the argument is
    /// not a number), pattern and replacement.
    Substitute { line: usize, pattern: String, replacement: String },
    /// `~search` without a term.
    SearchWhat,
    /// `~search` with its term (its words joined by spaces).
    Search(String),
    /// `~indent` without a line number.
    IndentWhich,
    /// `~indent` with a line number (0 where the argument is not a number) but
    /// no level.
    IndentHow(usize),
    /// `~indent` with its line number and level (each 0 where the argument is
    /// not a number).
    Indent(usize, isize),
    /// The line is exactly `~exit`: leave the editor.
    Exit,
    /// A line whose first word is `~exit` but which holds more: nothing happens.
    Nothing,
    /// Another word starting with `~`.
    Unknown(String),
    /// A line of text, to be added at the end of the buffer.
    Text(String),
}

/// The meaning of a `Command`, with texts as character sequences.
pub enum CommandSpec {
    ListCommands,
    Help,
    About,
    Clear,
    SaveWhere,
    Save(Seq<char>),
    Show { start: Option<usize>, end: Option<usize> },
    OpenWhat,
    Open(Seq<char>),
    Run(Seq<Seq<char>>),
    Bsod,
    InsertWhere,
    Insert(usize),
    ReplaceWhich,
    Replace(usize),
    SwapWhich,
    SwapWithWhat(Seq<char>),
    Swap(usize, usize),
    DeleteWhich,
    Delete(usize),
    SubstituteWhichLine,
    SubstituteWhat,
    Substitute { line: usize, pattern: Seq<char>, replacement: Seq<char> },
    SearchWhat,
    Search(Seq<char>),
    IndentWhich,
    IndentHow(usize),
    Indent(usize, isize),
    Exit,
    Nothing,
    Unknown(Seq<char>),
    Text(Seq<char>),
}

impl View for Command {
    type V = CommandSpec;

    open spec fn view(&self) -> CommandSpec {
        match self {
            Command::ListCommands => CommandSpec::ListCommands,
            Command::Help => CommandSpec::Help,
            Command::About => CommandSpec::About,
            Command::Clear => CommandSpec::Clear,
            Command::SaveWhere => CommandSpec::SaveWhere,
            Command::Save(p) => CommandSpec::Save(p@),
            Command::Show { start, end } => CommandSpec::Show { start: *start, end: *end },
            Command::OpenWhat => CommandSpec::OpenWhat,
            Command::Open(p) => CommandSpec::Open(p@),
            Command::Run(w) => CommandSpec::Run(w@.map_values(|s: String| s@)),
            Command::Bsod => CommandSpec::Bsod,
            Command::InsertWhere => CommandSpec::InsertWhere,
            Command::Insert(n) => CommandSpec::Insert(*n),
            Command::ReplaceWhich => CommandSpec::ReplaceWhich,
            Command::Replace(n) => CommandSpec::Replace(*n),
            Command::SwapWhich => CommandSpec::SwapWhich,
            Command::SwapWithWhat(a) => CommandSpec::SwapWithWhat(a@),
            Command::Swap(a, b) => CommandSpec::Swap(*a, *b),
            Command::DeleteWhich => CommandSpec::DeleteWhich,
            Command::Delete(n) => CommandSpec::Delete(*n),
            Command::SubstituteWhichLine => CommandSpec::SubstituteWhichLine,
            Command::SubstituteWhat => CommandSpec::SubstituteWhat,
            Command::Substitute { line, pattern, replacement } => CommandSpec::Substitute {
                line: *line,
                pattern: pattern@,
                replacement: replacement@,
            },
            Command::SearchWhat => CommandSpec::SearchWhat,
            Command::Search(t) => CommandSpec::Search(t@),
            Command::IndentWhich => CommandSpec::IndentWhich,
            Command::IndentHow(n) => CommandSpec::IndentHow(*n),
            Command::Indent(n, l) => CommandSpec::Indent(*n, *l),
            Command::Exit => CommandSpec::Exit,
            Command::Nothing => CommandSpec::Nothing,
            Command::Unknown(w) => CommandSpec::Unknown(w@),
            Command::Text(t) => CommandSpec::Text(t@),
        }
    }
}

/// The number an argument gives where a bad number counts as 0
/// (`parse::<usize>().unwrap_or(0)`).
pub open spec fn number_or_zero(s: Seq<char>) -> usize {
    match parse_usize_spec(s) {
        Some(x) => x,
        None => 0,
    }
}

/// The words of `w` from the `i`-th on, joined by spaces.
pub open spec fn words_from(w: Seq<Seq<char>>, i: int) -> Seq<char> {
    join_with(w.subrange(i, w.len() as int), ' ')
}

/// The command that the typed `line` gives, in a buffer of `buffer_len` lines:
/// the line loses its trailing carriage returns and newlines, is split into
/// words at each space, and its first word names the command.
pub open spec fn command_spec(line: Seq<char>, buffer_len: usize) -> CommandSpec {
    let cmd = without_line_end(line);
    let w = split_on(cmd, ' ');
    let n = w.len();
    let head = w[0];
    if head == "~"@ {
        CommandSpec::ListCommands
    } else if head == "~help"@ {
        CommandSpec::Help
    } else if head == "~about"@ {
        CommandSpec::About
    } else if head == "~clear"@ {
        CommandSpec::Clear
    } else if head == "~save"@ {
        if n >= 2 { CommandSpec::Save(words_from(w, 1)) } else { CommandSpec::SaveWhere }
    } else if head == "~show"@ {
        CommandSpec::Show {
            start: if n >= 2 { parse_usize_spec(w[1]) } else { Some(1) },
            end: if n >= 3 { parse_usize_spec(w[2]) } else { Some(buffer_len) },
        }
    } else if head == "~open"@ {
        if n >= 2 { CommandSpec::Open(words_from(w, 1)) } else { CommandSpec::OpenWhat }
    } else if head == "~run"@ {
        CommandSpec::Run(w)
    } else if head == "~bsod"@ {
        CommandSpec::Bsod
    } else if head == "~insert"@ {
        if n >= 2 { CommandSpec::Insert(number_or_zero(w[1])) } else { CommandSpec::InsertWhere }
    } else if head == "~replace"@ {
        if n >= 2 { CommandSpec::Replace(number_or_zero(w[1])) } else { CommandSpec::ReplaceWhich }
    } else if head == "~swap"@ {
        if n >= 3 {
            CommandSpec::Swap(number_or_zero(w[1]), number_or_zero(w[2]))
        } else if n >= 2 {
            CommandSpec::SwapWithWhat(w[1])
        } else {
            CommandSpec::SwapWhich
        }
    } else if head == "~del"@ || head == "~delete"@ {
        if n >= 2 { CommandSpec::Delete(number_or_zero(w[1])) } else { CommandSpec::DeleteWhich }
    } else if head == "~sub"@ || head == "~substitute"@ {
        if n >= 3 {
            let p = split_pieces(encode_utf8(words_from(w, 2)));
            if p.len() >= 2 {
                CommandSpec::Substitute {
                    line: number_or_zero(w[1]),
                    pattern: decode_utf8(p[0]),
                    replacement: decode_utf8(p[1]),
                }
            } else {
                CommandSpec::SubstituteWhat
            }
        } else if n >= 2 {
            CommandSpec::SubstituteWhat
        } else {
            CommandSpec::SubstituteWhichLine
        }
    } else if head == "~search"@ {
        if n >= 2 { CommandSpec::Search(words_from(w, 1)) } else { CommandSpec::SearchWhat }
    } else if head == "~indent"@ {
        if n >= 3 {
            CommandSpec::Indent(
                number_or_zero(w[1]),
                match parse_isize_spec(w[2]) {
                    Some(x) => x,
                    None => 0,
                },
            )
        } else if n >= 2 {
            CommandSpec::IndentHow(number_or_zero(w[1]))
        } else {
            CommandSpec::IndentWhich
        }
    } else if head == "~exit"@ {
        if cmd == "~exit"@ { CommandSpec::Exit } else { CommandSpec::Nothing }
    } else if head.len() > 0 && head[0] == '~' {
        CommandSpec::Unknown(head)
    } else {
        CommandSpec::Text(cmd)
    }
}

fn number_arg(s: &String) -> (r: usize)
    ensures
        r == number_or_zero(s@),
{
    match parse_usize(s.as_str()) {
        Some(x) => x,
        None => 0,
    }
}

/// Reads the typed `line` as a command, for a buffer of `buffer_len` lines.
pub fn parse_command(line: &str, buffer_len: usize) -> (r: Command)
    ensures
        r@ == command_spec(line@, buffer_len),
{
    broadcast use encode_utf8_decode_utf8;

    let cmd = strip_line_end(line);
    let w = split_at_char(cmd.as_str(), ' ');
    let ghost ws = split_on(cmd@, ' ');
    assert(ws.len() >= 1);
    let n = w.len();
    let head = w[0].as_str();
    if str_eq(head, "~") {
        Command::ListCommands
    } else if str_eq(head, "~help") {
        Command::Help
    } else if str_eq(head, "~about") {
        Command::About
    } else if str_eq(head, "~clear") {
        Command::Clear
    } else if str_eq(head, "~save") {
        if n >= 2 {
            let p = join_from(&w, 1, ' ');
            assert(w@.subrange(1, n as int).map_values(|s: String| s@) =~= ws.subrange(1, n as int));
            Command::Save(p)
        } else {
            Command::SaveWhere
        }
    } else if str_eq(head, "~show") {
        let start = if n >= 2 {
            parse_usize(w[1].as_str())
        } else {
            Some(1)
        };
        let end = if n >= 3 {
            parse_usize(w[2].as_str())
        } else {
            Some(buffer_len)
        };
        Command::Show { start, end }
    } else if str_eq(head, "~open") {
        if n >= 2 {
            let p = join_from(&w, 1, ' ');
            assert(w@.subrange(1, n as int).map_values(|s: String| s@) =~= ws.subrange(1, n as int));
            Command::Open(p)
        } else {
            Command::OpenWhat
        }
    } else if str_eq(head, "~run") {
        assert(w@.map_values(|s: String| s@) =~= ws);
        Command::Run(w)
    } else if str_eq(head, "~bsod") {
        Command::Bsod
    } else if str_eq(head, "~insert") {
        if n >= 2 {
            Command::Insert(number_arg(&w[1]))
        } else {
            Command::InsertWhere
        }
    } else if str_eq(head, "~replace") {
        if n >= 2 {
            Command::Replace(number_arg(&w[1]))
        } else {
            Command::ReplaceWhich
        }
    } else if str_eq(head, "~swap") {
        if n >= 3 {
            Command::Swap(number_arg(&w[1]), number_arg(&w[2]))
        } else if n >= 2 {
            Command::SwapWithWhat(w[1].clone())
        } else {
            Command::SwapWhich
        }
    } else if str_eq(head, "~del") || str_eq(head, "~delete") {
        if n >= 2 {
            Command::Delete(number_arg(&w[1]))
        } else {
            Command::DeleteWhich
        }
    } else if str_eq(head, "~sub") || str_eq(head, "~substitute") {
        if n >= 3 {
            let combined = join_from(&w, 2, ' ');
            assert(w@.subrange(2, n as int).map_values(|s: String| s@) =~= ws.subrange(2, n as int));
            let line_number = number_arg(&w[1]);
            let pieces = split_pattern_replacement(combined.as_str());
            if pieces.len() >= 2 {
                let pattern = pieces[0].to_owned();
                let replacement = pieces[1].to_owned();
                proof {
                    assert(decode_utf8(encode_utf8(pattern@)) == pattern@);
                    assert(decode_utf8(encode_utf8(replacement@)) == replacement@);
                }
                Command::Substitute { line: line_number, pattern, replacement }
            } else {
                Command::SubstituteWhat
            }
        } else if n >= 2 {
            Command::SubstituteWhat
        } else {
            Command::SubstituteWhichLine
        }
    } else if str_eq(head, "~search") {
        if n >= 2 {
            let t = join_from(&w, 1, ' ');
            assert(w@.subrange(1, n as int).map_values(|s: String| s@) =~= ws.subrange(1, n as int));
            Command::Search(t)
        } else {
            Command::SearchWhat
        }
    } else if str_eq(head, "~indent") {
        if n >= 3 {
            let level = match parse_isize(w[2].as_str()) {
                Some(x) => x,
                None => 0,
            };
            Command::Indent(number_arg(&w[1]), level)
        } else if n >= 2 {
            Command::IndentHow(number_arg(&w[1]))
        } else {
            Command::IndentWhich
        }
    } else if str_eq(head, "~exit") {
        if str_eq(cmd.as_str(), "~exit") {
            Command::Exit
        } else {
            Command::Nothing
        }
    } else {
        let hv = chars_of(head);
        if hv.len() > 0 && hv[0] == '~' {
            Command::Unknown(w[0].clone())
        } else {
            Command::Text(cmd)
        }
    }
}

} // verus!
