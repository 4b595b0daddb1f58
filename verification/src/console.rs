//! The dedicated server's console: what a typed line asks the server to do.
use vstd::prelude::*;

verus! {

/// Unicode's `White_Space` characters.
pub open spec fn is_white_space(c: char) -> bool {
    ||| ('\u{9}' <= c && c <= '\u{d}')
    ||| c == ' '
    ||| c == '\u{85}'
    ||| c == '\u{a0}'
    ||| c == '\u{1680}'
    ||| ('\u{2000}' <= c && c <= '\u{200a}')
    ||| c == '\u{2028}'
    ||| c == '\u{2029}'
    ||| c == '\u{202f}'
    ||| c == '\u{205f}'
    ||| c == '\u{3000}'
}

/// Whether `c` is one of Unicode's `White_Space` characters.
pub fn is_white_space_char(c: char) -> (r: bool)
    ensures
        r == is_white_space(c),
{
    ('\u{9}' <= c && c <= '\u{d}') || c == ' ' || c == '\u{85}' || c == '\u{a0}' || c == '\u{1680}' || ('\u{2000}'
        <= c && c <= '\u{200a}') || c == '\u{2028}' || c == '\u{2029}' || c == '\u{202f}' || c == '\u{205f}' || c
        == '\u{3000}'
}

/// The first whitespace-separated word of `s`, or nothing when `s` is blank.
pub open spec fn first_word(s: Seq<char>) -> Seq<char> {
    let start = leading_white_space(s);
    s.subrange(start as int, (start + word_length(s.subrange(start as int, s.len() as int))) as int)
}

/// The number of whitespace characters at the start of `s`.
pub open spec fn leading_white_space(s: Seq<char>) -> nat
    decreases s.len(),
{
    if s.len() > 0 && is_white_space(s[0]) {
        1 + leading_white_space(s.drop_first())
    } else {
        0
    }
}

/// The number of non-whitespace characters at the start of `s`.
pub open spec fn word_length(s: Seq<char>) -> nat
    decreases s.len(),
{
    if s.len() > 0 && !is_white_space(s[0]) {
        1 + word_length(s.drop_first())
    } else {
        0
    }
}

proof fn lemma_leading_white_space(s: Seq<char>, i: int)
    requires
        0 <= i <= s.len(),
        forall|k: int| 0 <= k < i ==> is_white_space(#[trigger] s[k]),
        i == s.len() || !is_white_space(s[i]),
    ensures
        leading_white_space(s) == i,
    decreases i,
{
    if i > 0 {
        lemma_leading_white_space(s.drop_first(), i - 1);
    }
}

proof fn lemma_word_length(s: Seq<char>, i: int)
    requires
        0 <= i <= s.len(),
        forall|k: int| 0 <= k < i ==> !is_white_space(#[trigger] s[k]),
        i == s.len() || is_white_space(s[i]),
    ensures
        word_length(s) == i,
    decreases i,
{
    if i > 0 {
        lemma_word_length(s.drop_first(), i - 1);
    }
}

/// A command typed into the server console.
#[derive(Debug, PartialEq, Eq)]
pub enum ConsoleCommand {
    /// A blank line: nothing to do.
    Empty,
    /// `quit`, `stop` or `exit`: shut the server down.
    Shutdown,
    /// Any other word, which the console reports as unknown.
    Unknown(String),
}

/// What a line typed into the console asks for, decided by its first word.
pub open spec fn console_command_spec(line: Seq<char>) -> ConsoleCommandView {
    let w = first_word(line);
    if w.len() == 0 {
        ConsoleCommandView::Empty
    } else if w == "quit"@ || w == "stop"@ || w == "exit"@ {
        ConsoleCommandView::Shutdown
    } else {
        ConsoleCommandView::Unknown(w)
    }
}

/// What a console command says, with the unknown word as its characters.
pub enum ConsoleCommandView {
    Empty,
    Shutdown,
    Unknown(Seq<char>),
}

/// The view of a command.
pub open spec fn command_view(c: ConsoleCommand) -> ConsoleCommandView {
    match c {
        ConsoleCommand::Empty => ConsoleCommandView::Empty,
        ConsoleCommand::Shutdown => ConsoleCommandView::Shutdown,
        ConsoleCommand::Unknown(w) => ConsoleCommandView::Unknown(w@),
    }
}

/// What a line typed into the console asks for, decided by its first word.
pub fn parse_console_command(line: &str) -> (r: ConsoleCommand)
    ensures
        command_view(r) == console_command_spec(line@),
{
    let n = line.unicode_len();
    let mut i: usize = 0;
    while i < n && is_white_space_char(line.get_char(i))
        invariant
            n == line@.len(),
            i <= n,
            forall|k: int| 0 <= k < i ==> is_white_space(#[trigger] line@[k]),
        decreases n - i,
    {
        i = i + 1;
    }
    proof {
        lemma_leading_white_space(line@, i as int);
    }
    let start = i;
    while i < n && !is_white_space_char(line.get_char(i))
        invariant
            n == line@.len(),
            start <= i <= n,
            forall|k: int| start <= k < i ==> !is_white_space(#[trigger] line@[k]),
        decreases n - i,
    {
        i = i + 1;
    }
    proof {
        let rest = line@.subrange(start as int, n as int);
        assert forall|k: int| 0 <= k < i - start implies !is_white_space(#[trigger] rest[k]) by {
            assert(rest[k] == line@[start + k]);
        }
        if i < n {
            assert(rest[i - start] == line@[i as int]);
        }
        lemma_word_length(rest, i - start);
    }
    let word = String::from_str(line.substring_char(start, i));
    if word.unicode_len() == 0 {
        return ConsoleCommand::Empty;
    }
    let quit = String::from_str("quit");
    let stop = String::from_str("stop");
    let exit = String::from_str("exit");
    if word == quit || word == stop || word == exit {
        ConsoleCommand::Shutdown
    } else {
        ConsoleCommand::Unknown(word)
    }
}

} // verus!
