//! Characters and strings: what the name handling needs of them.

use vstd::prelude::*;
use vstd::std_specs::iter::IteratorSpec;

verus! {

/// `String::push` of the standard library. Trusted, not proved: the string
/// afterwards holds the characters it held before, followed by `c`.
pub assume_specification[ String::push ](s: &mut String, c: char)
    ensures
        final(s)@ == old(s)@.push(c),
;

/// The character that the byte `b` stands for: the one with code point `b`.
pub open spec fn spec_byte_char(b: u8) -> char {
    b as char
}

/// The characters that the bytes of `s` stand for, one for one.
pub open spec fn spec_byte_chars(s: Seq<u8>) -> Seq<char> {
    Seq::new(s.len(), |i: int| spec_byte_char(s[i]))
}

/// `c` with the letters `a` to `z` replaced by `A` to `Z`; any other
/// character is left as it is.
pub open spec fn spec_ascii_upper(c: char) -> char {
    if 'a' <= c && c <= 'z' {
        ((c as u8) - 32) as char
    } else {
        c
    }
}

/// `s` with every letter `a` to `z` in upper case.
pub open spec fn spec_upper(s: Seq<char>) -> Seq<char> {
    Seq::new(s.len(), |i: int| spec_ascii_upper(s[i]))
}

/// Upper-cases one character, ASCII letters only.
pub fn ascii_upper(c: char) -> (r: char)
    ensures
        r == spec_ascii_upper(c),
{
    if 'a' <= c && c <= 'z' {
        let v: u8 = c as u8;
        (v - 32) as char
    } else {
        c
    }
}

/// Upper-cases a string, ASCII letters only.
pub fn upper(s: &str) -> (r: String)
    ensures
        r@ == spec_upper(s@),
{
    let mut out = String::new();
    let mut it = s.chars();
    let ghost mut done: Seq<char> = Seq::empty();
    loop
        invariant
            done + it.remaining() == s@,
            out@ == spec_upper(done),
            it.obeys_prophetic_iter_laws(),
            it.decrease() is Some,
        ensures
            out@ == spec_upper(s@),
        decreases it.decrease()->0,
    {
        match it.next() {
            Some(c) => {
                out.push(ascii_upper(c));
                proof {
                    done = done.push(c);
                }
            },
            None => {
                break;
            },
        }
    }
    out
}

/// Whether `s` starts with the character `c`.
pub fn starts_with_char(s: &str, c: char) -> (r: bool)
    ensures
        r == (s@.len() > 0 && s@[0] == c),
{
    let mut it = s.chars();
    match it.next() {
        Some(first) => first == c,
        None => false,
    }
}

/// Whether two strings hold the same characters.
pub fn same_text(a: &str, b: &str) -> (r: bool)
    ensures
        r == (a@ == b@),
{
    let mut left = a.chars();
    let mut right = b.chars();
    let ghost mut done: Seq<char> = Seq::empty();
    loop
        invariant
            done + left.remaining() == a@,
            done + right.remaining() == b@,
            left.obeys_prophetic_iter_laws(),
            left.decrease() is Some,
            right.obeys_prophetic_iter_laws(),
        decreases left.decrease()->0,
    {
        let ghost r_rem = right.remaining();
        match (left.next(), right.next()) {
            (Some(c), Some(d)) => {
                if c != d {
                    assert(b@[done.len() as int] == r_rem[0]);
                    return false;
                }
                proof {
                    done = done.push(c);
                }
            },
            (None, None) => {
                return true;
            },
            _ => {
                return false;
            },
        }
    }
}

/// Whether `c` is white space: one of the code points that Unicode gives
/// the property `White_Space`.
pub open spec fn spec_is_whitespace(c: char) -> bool {
    let u = c as u32;
    ||| 0x09 <= u <= 0x0D
    ||| u == 0x20
    ||| u == 0x85
    ||| u == 0xA0
    ||| u == 0x1680
    ||| 0x2000 <= u <= 0x200A
    ||| u == 0x2028
    ||| u == 0x2029
    ||| u == 0x202F
    ||| u == 0x205F
    ||| u == 0x3000
}

/// Whether `c` is white space.
pub fn is_whitespace(c: char) -> (r: bool)
    ensures
        r == spec_is_whitespace(c),
{
    let u: u32 = c as u32;
    (0x09 <= u && u <= 0x0D) || u == 0x20 || u == 0x85 || u == 0xA0 || u == 0x1680 || (0x2000 <= u
        && u <= 0x200A) || u == 0x2028 || u == 0x2029 || u == 0x202F || u == 0x205F || u == 0x3000
}

/// What separates the fields of a text.
#[derive(Debug, Clone, Copy, PartialEq, Eq, Structural)]
pub enum Separator {
    /// The character `/`, between the segments of a path.
    Slash,
    /// Any white space, between the words of a line.
    Whitespace,
}

impl Separator {
    /// Whether `c` is a separator of this kind.
    pub open spec fn spec_separates(self, c: char) -> bool {
        match self {
            Separator::Slash => c == '/',
            Separator::Whitespace => spec_is_whitespace(c),
        }
    }

    /// Whether `c` is a separator of this kind.
    pub fn separates(self, c: char) -> (r: bool)
        ensures
            r == self.spec_separates(c),
    {
        match self {
            Separator::Slash => c == '/',
            Separator::Whitespace => is_whitespace(c),
        }
    }
}

/// Length of the longest prefix of `s` that holds no separator.
pub open spec fn spec_run_len(s: Seq<char>, by: Separator) -> nat
    decreases s.len(),
{
    if s.len() == 0 || by.spec_separates(s[0]) {
        0
    } else {
        1 + spec_run_len(s.drop_first(), by)
    }
}

/// The fields of a text: its maximal runs of characters that are no
/// separators, in order. No field is empty. (The last branch is never taken:
/// a text that starts with no separator has a leading run.)
pub open spec fn spec_fields(s: Seq<char>, by: Separator) -> Seq<Seq<char>>
    decreases s.len(),
{
    if s.len() == 0 {
        Seq::empty()
    } else if by.spec_separates(s[0]) {
        spec_fields(s.drop_first(), by)
    } else {
        let n = spec_run_len(s, by) as int;
        if 0 < n <= s.len() {
            seq![s.take(n)] + spec_fields(s.skip(n), by)
        } else {
            Seq::empty()
        }
    }
}

/// Whether `s` holds no separator.
pub open spec fn spec_plain(s: Seq<char>, by: Separator) -> bool {
    forall|i: int| 0 <= i < s.len() ==> !by.spec_separates(#[trigger] s[i])
}

/// The leading run is a prefix without a separator, and it ends at a
/// separator or at the end.
pub proof fn lemma_run_len(s: Seq<char>, by: Separator)
    ensures
        spec_run_len(s, by) <= s.len(),
        spec_plain(s.take(spec_run_len(s, by) as int), by),
        spec_run_len(s, by) < s.len() ==> by.spec_separates(s[spec_run_len(s, by) as int]),
        s.len() > 0 && !by.spec_separates(s[0]) ==> spec_run_len(s, by) > 0,
    decreases s.len(),
{
    if s.len() > 0 && !by.spec_separates(s[0]) {
        let t = s.drop_first();
        lemma_run_len(t, by);
        let n = spec_run_len(s, by) as int;
        assert forall|i: int| 0 <= i < n implies !by.spec_separates(#[trigger] s.take(n)[i]) by {
            if i > 0 {
                assert(s.take(n)[i] == t.take(n - 1)[i - 1]);
            }
        }
    }
}

/// A run without a separator, followed by a separator or by nothing, is the
/// leading run.
pub proof fn lemma_run_len_of_plain(run: Seq<char>, rest: Seq<char>, by: Separator)
    requires
        spec_plain(run, by),
        rest.len() == 0 || by.spec_separates(rest[0]),
    ensures
        spec_run_len(run + rest, by) == run.len(),
    decreases run.len(),
{
    if run.len() > 0 {
        assert((run + rest).drop_first() =~= run.drop_first() + rest);
        lemma_run_len_of_plain(run.drop_first(), rest, by);
    }
}

/// A text that opens with a run of other characters and then a separator has
/// that run as its first field; the others are those of what follows.
pub proof fn lemma_fields_of_run(run: Seq<char>, rest: Seq<char>, by: Separator)
    requires
        run.len() > 0,
        spec_plain(run, by),
        rest.len() == 0 || by.spec_separates(rest[0]),
    ensures
        spec_fields(run + rest, by) == seq![run] + spec_fields(rest, by),
{
    let s = run + rest;
    lemma_run_len_of_plain(run, rest, by);
    assert(s.take(run.len() as int) =~= run);
    assert(s.skip(run.len() as int) =~= rest);
}

/// Every field is non-empty and holds no separator.
pub proof fn lemma_fields_plain(s: Seq<char>, by: Separator)
    ensures
        forall|k: int|
            0 <= k < spec_fields(s, by).len() ==> {
                &&& (#[trigger] spec_fields(s, by)[k]).len() > 0
                &&& spec_plain(spec_fields(s, by)[k], by)
            },
    decreases s.len(),
{
    let fields = spec_fields(s, by);
    if s.len() > 0 {
        if by.spec_separates(s[0]) {
            lemma_fields_plain(s.drop_first(), by);
            assert(fields == spec_fields(s.drop_first(), by));
        } else {
            let n = spec_run_len(s, by) as int;
            lemma_run_len(s, by);
            lemma_fields_plain(s.skip(n), by);
            assert forall|k: int| 0 <= k < fields.len() implies {
                &&& (#[trigger] fields[k]).len() > 0
                &&& spec_plain(fields[k], by)
            } by {
                if k > 0 {
                    assert(fields[k] == spec_fields(s.skip(n), by)[k - 1]);
                }
            }
        }
    }
}

/// The character sequences that a sequence of strings holds, in order.
pub open spec fn spec_string_views(v: Seq<String>) -> Seq<Seq<char>> {
    Seq::new(v.len(), |i: int| v[i]@)
}

/// Splits a text into its fields.
pub fn split_fields(s: &str, by: Separator) -> (r: Vec<String>)
    ensures
        spec_string_views(r@) == spec_fields(s@, by),
{
    let mut done: Vec<String> = Vec::new();
    let mut cur = String::new();
    let mut it = s.chars();
    loop
        invariant
            spec_string_views(done@) + spec_fields(cur@ + it.remaining(), by) == spec_fields(
                s@,
                by,
            ),
            spec_plain(cur@, by),
            it.obeys_prophetic_iter_laws(),
            it.decrease() is Some,
        ensures
            spec_string_views(done@) + spec_fields(cur@, by) == spec_fields(s@, by),
            spec_plain(cur@, by),
        decreases it.decrease()->0,
    {
        let ghost rem = it.remaining();
        match it.next() {
            Some(c) => {
                if by.separates(c) {
                    if !cur.as_str().is_empty() {
                        proof {
                            lemma_fields_of_run(cur@, rem, by);
                        }
                        done.push(cur);
                        cur = String::new();
                    }
                } else {
                    assert(cur@.push(c) + it.remaining() =~= cur@ + rem);
                    cur.push(c);
                }
            },
            None => {
                break;
            },
        }
    }
    if !cur.as_str().is_empty() {
        proof {
            lemma_fields_of_run(cur@, Seq::empty(), by);
        }
        done.push(cur);
    }
    done
}

} // verus!
