//! Regular expressions (through the `regex` crate) and the splitting of a
//! `pattern/replacement` argument.
use vstd::prelude::*;
use vstd::utf8::*;

verus! {

/// `regex::Regex`, carried opaque.
#[verifier::external_type_specification]
#[verifier::external_body]
pub struct ExRegex(regex::Regex);

/// Whether `regex::Regex::new` accepts `pattern` (valid syntax, within the
/// default size limit).
pub uninterp spec fn regex_compiles(pattern: Seq<char>) -> bool;

/// What `regex::Regex::is_match` answers for a regex compiled from `pattern`
/// on `haystack`: whether the regex matches anywhere in it.
pub uninterp spec fn regex_matches(pattern: Seq<char>, haystack: Seq<char>) -> bool;

/// What `regex::Regex::replace` returns for a regex compiled from `pattern`:
/// `haystack` with its leftmost-first match replaced by `replacement`, in which
/// `$name` and `${name}` are expanded to capture groups and `$$` is a `$`.
pub uninterp spec fn regex_replace_first(
    pattern: Seq<char>,
    haystack: Seq<char>,
    replacement: Seq<char>,
) -> Seq<char>;

/// A regular expression together with the pattern it was compiled from.
/// Both fields are set together, only by `regex_new`, which builds the regex
/// from that very pattern; the fields are private, so nothing else can pair a
/// regex with another pattern.
pub struct CompiledPattern {
    pattern: String,
    regex: regex::Regex,
}

impl View for CompiledPattern {
    type V = Seq<char>;

    /// The pattern the regular expression was compiled from.
    closed spec fn view(&self) -> Seq<char> {
        self.pattern@
    }
}

/// Calls `regex::Regex::new(pattern)`. Trusted: the result is `Some` exactly when
/// the crate accepts the pattern, and then it holds the compiled regex beside a
/// copy of `pattern`.
#[verifier::external_body]
fn regex_new(pattern: &str) -> (r: Option<CompiledPattern>)
    ensures
        r is Some <==> regex_compiles(pattern@),
        r matches Some(p) ==> p@ == pattern@,
{
    match regex::Regex::new(pattern) {
        Ok(regex) => Some(CompiledPattern { pattern: pattern.to_owned(), regex }),
        Err(_) => None,
    }
}

/// Calls `regex::Regex::is_match`. Trusted: the answer is the named result
/// `regex_matches` of the pattern and the haystack.
#[verifier::external_body]
pub(crate) fn regex_is_match(p: &CompiledPattern, haystack: &str) -> (r: bool)
    ensures
        r == regex_matches(p@, haystack@),
{
    p.regex.is_match(haystack)
}

/// Calls `regex::Regex::replace`. Trusted: the result is the named result
/// `regex_replace_first`, and, as the crate's documentation says, the haystack
/// comes back unchanged when the regex does not match it.
#[verifier::external_body]
pub(crate) fn regex_replace(p: &CompiledPattern, haystack: &str, replacement: &str) -> (r: String)
    ensures
        r@ == regex_replace_first(p@, haystack@, replacement@),
        !regex_matches(p@, haystack@) ==> r@ == haystack@,
{
    p.regex.replace(haystack, replacement).into_owned()
}

/// Compiles `pattern` into a regular expression; `None` when the `regex`
/// crate refuses it.
pub fn compile_pattern(pattern: &str) -> (r: Option<CompiledPattern>)
    ensures
        r is Some <==> regex_compiles(pattern@),
        r matches Some(p) ==> p@ == pattern@,
{
    regex_new(pattern)
}

/// The state of the scan that splits a `pattern/replacement` argument, after
/// its first `i` bytes: the pieces found so far, the byte offset where the
/// current piece starts, and whether the byte before was an unescaped
/// backslash. A `/` that does not follow an unescaped backslash ends the
/// current piece; the next piece starts just after it.
pub open spec fn split_scan(b: Seq<u8>, i: nat) -> (Seq<Seq<u8>>, int, bool)
    decreases i,
{
    if i == 0 {
        (seq![], 0, false)
    } else {
        let (parts, start, escaped) = split_scan(b, (i - 1) as nat);
        let j = i - 1;
        let c = b[j];
        if escaped {
            (parts, start, false)
        } else if c == 0x2fu8 {
            (parts.push(b.subrange(start, j)), j + 1, false)
        } else {
            (parts, start, c == 0x5cu8)
        }
    }
}

/// The pieces (as UTF-8 bytes) of a text with bytes `b`: the text between
/// unescaped slashes, in order, with the text after the last one when it is
/// not empty.
pub open spec fn split_pieces(b: Seq<u8>) -> Seq<Seq<u8>> {
    let (parts, start, escaped) = split_scan(b, b.len());
    if start < b.len() {
        parts.push(b.subrange(start, b.len() as int))
    } else {
        parts
    }
}

proof fn lemma_split_scan_bounds(b: Seq<u8>, i: nat)
    requires
        i <= b.len(),
    ensures
        0 <= split_scan(b, i).1 <= i,
    decreases i,
{
    if i > 0 {
        lemma_split_scan_bounds(b, (i - 1) as nat);
    }
}

/// In valid UTF-8 that starts with an ASCII byte, the next byte starts a character.
proof fn lemma_boundary_after_ascii(x: Seq<u8>)
    requires
        valid_utf8(x),
        x.len() > 0,
        x[0] <= 0x7f,
    ensures
        is_char_boundary(x, 1),
{
    reveal_with_fuel(is_char_boundary, 2);
    assert(length_of_first_scalar(x) == 1);
}

/// Splits the argument of the substitute command into its pieces: the text
/// between each two `/` that do not follow an unescaped backslash (a backslash
/// escapes the character after it, and stays in the piece), and the text after
/// the last such `/` when it is not empty.
pub fn split_pattern_replacement<'a>(combined_args: &'a str) -> (r: Vec<&'a str>)
    ensures
        r@.len() == split_pieces(encode_utf8(combined_args@)).len(),
        forall|k: int|
            0 <= k < r@.len() ==> #[trigger] encode_utf8(r@[k]@) == split_pieces(
                encode_utf8(combined_args@),
            )[k],
{
    broadcast use encode_utf8_valid_utf8, is_char_boundary_start_end_of_seq;

    let bytes = combined_args.as_bytes();
    let ghost b = encode_utf8(combined_args@);
    let n = bytes.len();
    let mut parts: Vec<&'a str> = Vec::new();
    let mut rest: &'a str = combined_args;
    let mut start: usize = 0;
    let mut escaped = false;
    let mut i: usize = 0;
    assert(b.subrange(0, n as int) =~= b);
    while i < n
        invariant
            n == b.len(),
            bytes@ == b,
            b == encode_utf8(combined_args@),
            valid_utf8(b),
            i <= n,
            split_scan(b, i as nat).1 == start,
            split_scan(b, i as nat).2 == escaped,
            split_scan(b, i as nat).0.len() == parts@.len(),
            forall|k: int|
                0 <= k < parts@.len() ==> #[trigger] encode_utf8(parts@[k]@) == split_scan(
                    b,
                    i as nat,
                ).0[k],
            start <= i,
            encode_utf8(rest@) == b.subrange(start as int, n as int),
        decreases n - i,
    {
        proof {
            lemma_split_scan_bounds(b, i as nat);
        }
        let c = bytes[i];
        if escaped {
            escaped = false;
        } else if c == 0x2fu8 {
            let ghost rb = encode_utf8(rest@);
            proof {
                encode_utf8_valid_utf8(rest@);
            }
            assert(valid_utf8(rb));
            assert(rb[i - start] == c);
            proof {
                is_char_boundary_iff_not_is_continuation_byte(rb, (i - start) as int);
            }
            let (piece, tail) = rest.split_at(i - start);
            let ghost tb = encode_utf8(tail@);
            assert(tb =~= rb.subrange((i - start) as int, rb.len() as int));
            proof {
                valid_utf8_split(rb, (i - start) as int);
                assert(tb[0] == c);
                lemma_boundary_after_ascii(tb);
            }
            let (_, after) = tail.split_at(1);
            assert(encode_utf8(piece@) =~= b.subrange(start as int, i as int));
            assert(encode_utf8(after@) =~= b.subrange(i + 1, n as int));
            parts.push(piece);
            rest = after;
            start = i + 1;
        } else {
            escaped = c == 0x5cu8;
        }
        i = i + 1;
    }
    if start < n {
        parts.push(rest);
    }
    parts
}

} // verus!
