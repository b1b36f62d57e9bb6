use vstd::prelude::*;
use vstd::std_specs::iter::IteratorSpec;

verus! {

/// Unicode White_Space, the set that `char::is_whitespace` tests.
pub open spec fn is_white(c: char) -> bool {
    let u = c as u32;
    (0x9 <= u && u <= 0xD) || u == 0x20 || u == 0x85 || u == 0xA0 || u == 0x1680 || (0x2000 <= u
        && u <= 0x200A) || u == 0x2028 || u == 0x2029 || u == 0x202F || u == 0x205F || u == 0x3000
}

/// Number of maximal runs of non-whitespace characters: one for each position
/// that holds a non-whitespace character and starts the text or follows whitespace.
pub open spec fn words_in(s: Seq<char>) -> nat
    decreases s.len(),
{
    if s.len() == 0 {
        0
    } else {
        words_in(s.drop_last()) + if !is_white(s.last()) && (s.len() == 1 || is_white(
            s[s.len() - 2],
        )) {
            1nat
        } else {
            0nat
        }
    }
}

/// The characters after the first line feed; empty where there is none.
pub open spec fn after_first_line(s: Seq<char>) -> Seq<char>
    decreases s.len(),
{
    if s.len() == 0 {
        s
    } else if s[0] == '\n' {
        s.skip(1)
    } else {
        after_first_line(s.skip(1))
    }
}

/// The lines of `s` joined by single line feeds: a line ends at `\n` or `\r\n`,
/// and a line ending at the very end of the text closes the last line.
pub open spec fn rejoin_lines(s: Seq<char>) -> Seq<char>
    decreases s.len(),
{
    if s.len() == 0 {
        s
    } else if s[0] == '\n' {
        if s.len() == 1 {
            Seq::empty()
        } else {
            seq!['\n'] + rejoin_lines(s.skip(1))
        }
    } else if s[0] == '\r' && s.len() >= 2 && s[1] == '\n' {
        if s.len() == 2 {
            Seq::empty()
        } else {
            seq!['\n'] + rejoin_lines(s.skip(2))
        }
    } else {
        seq![s[0]] + rejoin_lines(s.skip(1))
    }
}

/// A leading title line: one that starts with `#`.
pub open spec fn has_title_line(s: Seq<char>) -> bool {
    s.len() > 0 && s[0] == '#'
}

/// Raw source text with its leading title line removed and its line endings unified.
pub open spec fn normalized(s: Seq<char>) -> Seq<char> {
    if has_title_line(s) {
        rejoin_lines(after_first_line(s))
    } else {
        rejoin_lines(s)
    }
}

/// The characters of a string, in order.
pub(crate) fn chars_of(s: &str) -> (r: Vec<char>)
    ensures
        r@ == s@,
{
    broadcast use vstd::string::axiom_spec_iter, vstd::string::next_postcondition;

    let mut it = s.chars();
    let mut out: Vec<char> = Vec::new();
    loop
        invariant
            it.obeys_prophetic_iter_laws(),
            it.decrease() is Some,
            out@ + it.remaining() == s@,
        ensures
            out@ == s@,
        decreases it.decrease()->0,
    {
        match it.next() {
            Some(c) => {
                out.push(c);
                assert(out@ + it.remaining() =~= s@);
            },
            None => {
                assert(out@ =~= s@);
                break ;
            },
        }
    }
    out
}

/// Relies on `String::from_iter` over characters: the string that holds them in order.
#[verifier::external_body]
pub(crate) fn string_of(v: &[char]) -> (r: String)
    ensures
        r@ == v@,
{
    v.iter().collect()
}

pub fn is_whitespace(c: char) -> (r: bool)
    ensures
        r == is_white(c),
{
    let u = c as u32;
    (0x9 <= u && u <= 0xD) || u == 0x20 || u == 0x85 || u == 0xA0 || u == 0x1680 || (0x2000 <= u
        && u <= 0x200A) || u == 0x2028 || u == 0x2029 || u == 0x202F || u == 0x205F || u == 0x3000
}

/// Counts the maximal runs of non-whitespace characters in `s`.
pub fn count_words(s: &str) -> (r: usize)
    ensures
        r == words_in(s@),
{
    let cs = chars_of(s);
    let mut n: usize = 0;
    let mut i: usize = 0;
    while i < cs.len()
        invariant
            cs@ == s@,
            i <= cs.len(),
            n == words_in(cs@.subrange(0, i as int)),
            n <= i,
        decreases cs.len() - i,
    {
        let starts = !is_whitespace(cs[i]) && (i == 0 || is_whitespace(cs[i - 1]));
        proof {
            let t = cs@.subrange(0, i + 1);
            assert(t.drop_last() =~= cs@.subrange(0, i as int));
        }
        if starts {
            n = n + 1;
        }
        i = i + 1;
    }
    assert(cs@.subrange(0, cs.len() as int) =~= cs@);
    n
}

proof fn lemma_rejoin_step(s: Seq<char>, i: int)
    requires
        0 <= i < s.len(),
    ensures
        s.subrange(i, s.len() as int).skip(1) =~= s.subrange(i + 1, s.len() as int),
        i + 1 < s.len() ==> s.subrange(i, s.len() as int).skip(2) =~= s.subrange(
            i + 2,
            s.len() as int,
        ),
{
}

/// Drops the title line that `raw` may start with and joins the remaining
/// lines with `\n`.
pub fn normalize(raw: &str) -> (r: String)
    ensures
        r@ == normalized(raw@),
{
    let cs = chars_of(raw);
    let len = cs.len();
    let mut i: usize = 0;
    assert(cs@.subrange(0, len as int) =~= cs@);
    let titled = len > 0 && cs[0] == '#';
    while titled && i < len && cs[i] != '\n'
        invariant
            titled == has_title_line(raw@),
            !titled ==> i == 0,
            cs@ == raw@,
            len == cs.len(),
            i <= len,
            after_first_line(raw@) == after_first_line(cs@.subrange(i as int, len as int)),
        decreases len - i,
    {
        proof {
            lemma_rejoin_step(cs@, i as int);
        }
        i = i + 1;
    }
    let ghost rest: Seq<char>;
    if titled && i < len {
        proof {
            lemma_rejoin_step(cs@, i as int);
        }
        i = i + 1;
    }
    proof {
        rest = cs@.subrange(i as int, len as int);
        if titled {
            assert(after_first_line(raw@) == rest);
        } else {
            assert(rest =~= raw@);
        }
    }
    let mut out: Vec<char> = Vec::new();
    while i < len
        invariant
            cs@ == raw@,
            len == cs.len(),
            i <= len,
            normalized(raw@) == out@ + rejoin_lines(cs@.subrange(i as int, len as int)),
        decreases len - i,
    {
        let ghost t = cs@.subrange(i as int, len as int);
        proof {
            lemma_rejoin_step(cs@, i as int);
        }
        if cs[i] == '\n' {
            if i + 1 == len {
                i = i + 1;
            } else {
                assert(rejoin_lines(t) == seq!['\n'] + rejoin_lines(t.skip(1)));
                assert(out@ + rejoin_lines(t) == out@.push('\n') + rejoin_lines(t.skip(1)));
                out.push('\n');
                i = i + 1;
            }
        } else if cs[i] == '\r' && i + 1 < len && cs[i + 1] == '\n' {
            if i + 2 == len {
                i = i + 2;
            } else {
                assert(out@ + rejoin_lines(t) == out@.push('\n') + rejoin_lines(t.skip(2)));
                out.push('\n');
                i = i + 2;
            }
        } else {
            assert(out@ + rejoin_lines(t) == out@.push(cs[i as int]) + rejoin_lines(t.skip(1)));
            out.push(cs[i]);
            i = i + 1;
        }
    }
    assert(cs@.subrange(len as int, len as int) =~= Seq::<char>::empty());
    assert(out@ + Seq::<char>::empty() =~= out@);
    string_of(out.as_slice())
}

} // verus!
