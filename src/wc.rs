//! Line, word, character and byte counts of a text, and their one-line report.
use vstd::prelude::*;
use vstd::utf8::encode_utf8;
use vstd::string::StringExecFns;
use vstd::std_specs::iter::IteratorSpec;

verus! {

/// The counts of one text.
pub struct Counter {
    pub lines: usize,
    pub words: usize,
    pub bytes: usize,
    pub chars: usize,
}

/// Which counts a report shows.
pub struct Config {
    pub lines: bool,
    pub words: bool,
    pub bytes: bool,
    pub chars: bool,
}

/// Unicode `White_Space`, the set that `char::is_whitespace` tests.
pub open spec fn white_space(c: char) -> bool {
    let u = c as u32;
    (0x09 <= u <= 0x0D) || u == 0x20 || u == 0x85 || u == 0xA0 || u == 0x1680 || (0x2000 <= u
        <= 0x200A) || u == 0x2028 || u == 0x2029 || u == 0x202F || u == 0x205F || u == 0x3000
}

pub fn is_white_space(c: char) -> (r: bool)
    ensures
        r == white_space(c),
{
    let u = c as u32;
    (0x09 <= u && u <= 0x0D) || u == 0x20 || u == 0x85 || u == 0xA0 || u == 0x1680 || (0x2000
        <= u && u <= 0x200A) || u == 0x2028 || u == 0x2029 || u == 0x202F || u == 0x205F || u
        == 0x3000
}

/// Number of newline characters in `cs`.
pub open spec fn newlines(cs: Seq<char>) -> nat
    decreases cs.len(),
{
    if cs.len() == 0 {
        0
    } else {
        newlines(cs.drop_last()) + if cs.last() == '\n' {
            1nat
        } else {
            0nat
        }
    }
}

/// Number of lines: one per newline, and one more for a last line without one.
pub open spec fn line_count(cs: Seq<char>) -> nat {
    newlines(cs) + if cs.len() > 0 && cs.last() != '\n' {
        1nat
    } else {
        0nat
    }
}

proof fn lemma_newlines_bound(cs: Seq<char>)
    ensures
        newlines(cs) <= cs.len(),
    decreases cs.len(),
{
    if cs.len() > 0 {
        lemma_newlines_bound(cs.drop_last());
    }
}

proof fn lemma_contains_push(s: Seq<char>, o: char, x: char)
    ensures
        s.push(o).contains(x) == (s.contains(x) || o == x),
{
    if s.contains(x) {
        let j = choose|j: int| 0 <= j < s.len() && s[j] == x;
        assert(s.push(o)[j] == x);
    }
    if o == x {
        assert(s.push(o)[s.len() as int] == x);
    }
    if s.push(o).contains(x) {
        let j = choose|j: int| 0 <= j < s.push(o).len() && s.push(o)[j] == x;
        if j < s.len() {
            assert(s[j] == x);
        }
    }
}

/// Whether a word starts at position `i`.
pub open spec fn word_starts(cs: Seq<char>, i: int) -> bool {
    !white_space(cs[i]) && (i == 0 || white_space(cs[i - 1]))
}

/// Number of maximal runs of characters that are not white space.
pub open spec fn word_count(cs: Seq<char>) -> nat
    decreases cs.len(),
{
    if cs.len() == 0 {
        0
    } else {
        word_count(cs.drop_last()) + if word_starts(cs, cs.len() - 1) {
            1nat
        } else {
            0nat
        }
    }
}

/// The characters of `s`, in order.
fn chars_of(s: &str) -> (r: Vec<char>)
    ensures
        r@ == s@,
{
    broadcast use vstd::string::axiom_spec_iter, vstd::string::next_postcondition;

    let mut it = s.chars();
    let mut r: Vec<char> = Vec::new();
    loop
        invariant
            r@ + IteratorSpec::remaining(&it) == s@,
            IteratorSpec::decrease(&it) is Some,
        decreases IteratorSpec::decrease(&it)->0,
    {
        match it.next() {
            Some(c) => {
                r.push(c);
            },
            None => {
                assert(r@ =~= s@);
                return r;
            },
        }
    }
}

/// Counts the lines, words, characters and UTF-8 bytes of `contents`.
pub fn counter(contents: String) -> (r: Counter)
    ensures
        r.lines == line_count(contents@),
        r.words == word_count(contents@),
        r.chars == contents@.len(),
        r.bytes == encode_utf8(contents@).len(),
{
    let s = contents.as_str();
    let cs = chars_of(s);
    let mut lines: usize = 0;
    let mut words: usize = 0;
    let mut i: usize = 0;
    while i < cs.len()
        invariant
            i <= cs.len(),
            lines == newlines(cs@.take(i as int)),
            words == word_count(cs@.take(i as int)),
            lines <= i,
            words <= i,
        decreases cs.len() - i,
    {
        let c = cs[i];
        assert(cs@.take(i + 1).drop_last() =~= cs@.take(i as int));
        if c == '\n' {
            lines += 1;
        }
        if !is_white_space(c) && (i == 0 || is_white_space(cs[i - 1])) {
            words += 1;
        }
        i += 1;
    }
    assert(cs@.take(cs.len() as int) =~= cs@);
    if cs.len() > 0 && cs[cs.len() - 1] != '\n' {
        proof {
            lemma_newlines_bound(cs@.drop_last());
        }
        lines += 1;
    }
    Counter { lines, words, bytes: s.as_bytes().len(), chars: cs.len() }
}

impl Config {
    /// The selection made by the option letters `c` (bytes), `w` (words),
    /// `l` (lines) and `m` (characters); other letters select nothing. With none
    /// of the four, lines, words and bytes are shown.
    pub fn from(options: &[char]) -> (r: Config)
        ensures
            r.lines == (options@.contains('l') || no_selection(options@)),
            r.words == (options@.contains('w') || no_selection(options@)),
            r.bytes == (options@.contains('c') || no_selection(options@)),
            r.chars == options@.contains('m'),
    {
        let mut config = Config { lines: false, words: false, bytes: false, chars: false };
        let mut i: usize = 0;
        while i < options.len()
            invariant
                i <= options.len(),
                config.lines == options@.take(i as int).contains('l'),
                config.words == options@.take(i as int).contains('w'),
                config.bytes == options@.take(i as int).contains('c'),
                config.chars == options@.take(i as int).contains('m'),
            decreases options.len() - i,
        {
            let o = options[i];
            assert(options@.take(i + 1) =~= options@.take(i as int).push(o));
            proof {
                lemma_contains_push(options@.take(i as int), o, 'l');
                lemma_contains_push(options@.take(i as int), o, 'w');
                lemma_contains_push(options@.take(i as int), o, 'c');
                lemma_contains_push(options@.take(i as int), o, 'm');
            }
            if o == 'c' {
                config.bytes = true;
            } else if o == 'w' {
                config.words = true;
            } else if o == 'l' {
                config.lines = true;
            } else if o == 'm' {
                config.chars = true;
            }
            i += 1;
        }
        assert(options@.take(options.len() as int) =~= options@);
        if !config.lines && !config.words && !config.bytes && !config.chars {
            config.lines = true;
            config.words = true;
            config.bytes = true;
        }
        config
    }

    /// Whether `option` is one of the letters that select a count.
    pub fn supports(option: char) -> (r: bool)
        ensures
            r == (option == 'c' || option == 'w' || option == 'l' || option == 'm'),
    {
        option == 'c' || option == 'w' || option == 'l' || option == 'm'
    }
}

/// None of the four option letters is given.
pub open spec fn no_selection(options: Seq<char>) -> bool {
    !options.contains('l') && !options.contains('w') && !options.contains('c') && !options.contains(
        'm',
    )
}

/// The decimal digit `d` as a character.
pub open spec fn digit_char(d: nat) -> char {
    seq!['0', '1', '2', '3', '4', '5', '6', '7', '8', '9'][d as int]
}

/// The decimal digits of `n`, most significant first, with no leading zero.
pub open spec fn decimal(n: nat) -> Seq<char>
    decreases n,
{
    if n < 10 {
        seq![digit_char(n)]
    } else {
        decimal(n / 10).push(digit_char(n % 10))
    }
}

/// One column of a report: two spaces, then the count in decimal.
pub open spec fn column(n: nat) -> Seq<char> {
    seq![' ', ' '] + decimal(n)
}

/// The column of `n` when `shown`, else nothing.
pub open spec fn column_if(shown: bool, n: nat) -> Seq<char> {
    if shown {
        column(n)
    } else {
        Seq::empty()
    }
}

/// The report line: the selected counts in the order lines, words, characters, bytes.
pub open spec fn report(c: Counter, cfg: Config) -> Seq<char> {
    column_if(cfg.lines, c.lines as nat) + column_if(cfg.words, c.words as nat) + column_if(
        cfg.chars,
        c.chars as nat,
    ) + column_if(cfg.bytes, c.bytes as nat)
}

/// Relies on the `Display` impl of `usize`: the decimal digits of the value.
#[verifier::external_body]
fn decimal_string(n: usize) -> (r: String)
    ensures
        r@ == decimal(n as nat),
{
    n.to_string()
}

fn push_column(out: &mut String, shown: bool, n: usize)
    ensures
        final(out)@ == old(out)@ + column_if(shown, n as nat),
{
    if shown {
        let sep = "  ";
        proof {
            reveal_strlit("  ");
        }
        assert(sep@ =~= seq![' ', ' ']);
        out.append(sep);
        let digits = decimal_string(n);
        out.append(digits.as_str());
        assert(out@ =~= old(out)@ + column_if(shown, n as nat));
    } else {
        assert(out@ =~= old(out)@ + column_if(shown, n as nat));
    }
}

/// Formats the selected counts of `counter` as one line of columns.
pub fn make_printable(counter: Counter, config: &Config) -> (r: String)
    ensures
        r@ == report(counter, *config),
{
    let mut to_print = String::new();
    push_column(&mut to_print, config.lines, counter.lines);
    push_column(&mut to_print, config.words, counter.words);
    push_column(&mut to_print, config.chars, counter.chars);
    push_column(&mut to_print, config.bytes, counter.bytes);
    assert(to_print@ =~= report(counter, *config));
    to_print
}

} // verus!
