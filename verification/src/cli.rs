use vstd::prelude::*;
use crate::text::{chars_of, spec_trim, string_from_chars, trim_chars};
use crate::types::Token;
use vstd::string::StringSliceAdditionalSpecFns;

verus! {

/// The character text the fallback display uses for a token id (a space for ids it does not map).
pub open spec fn spec_token_char(token: i32) -> Seq<char> {
    match token {
        0 => " "@,
        1 => "A"@,
        2 => "B"@,
        3 => "C"@,
        4 => "D"@,
        5 => "E"@,
        6 => "F"@,
        7 => "G"@,
        8 => "H"@,
        9 => "I"@,
        10 => "J"@,
        11 => "K"@,
        12 => "L"@,
        13 => "\n"@,
        14 => "M"@,
        15 => "N"@,
        16 => "O"@,
        17 => "P"@,
        18 => "Q"@,
        19 => "R"@,
        20 => "S"@,
        21 => "T"@,
        22 => "U"@,
        23 => "V"@,
        24 => "W"@,
        25 => "X"@,
        26 => "Y"@,
        27 => "Z"@,
        28 => "a"@,
        29 => "b"@,
        30 => "c"@,
        31 => "d"@,
        32 => " "@,
        33 => "!"@,
        34 => "\""@,
        35 => "#"@,
        36 => "$"@,
        37 => "%"@,
        38 => "&"@,
        39 => "'"@,
        40 => "("@,
        41 => ")"@,
        42 => "*"@,
        43 => "+"@,
        44 => ","@,
        45 => "-"@,
        46 => "."@,
        47 => "/"@,
        48 => "0"@,
        49 => "1"@,
        50 => "2"@,
        51 => "3"@,
        52 => "4"@,
        53 => "5"@,
        54 => "6"@,
        55 => "7"@,
        56 => "8"@,
        57 => "9"@,
        58 => ":"@,
        59 => ";"@,
        60 => "<"@,
        61 => "="@,
        62 => ">"@,
        63 => "?"@,
        64 => "@"@,
        _ => " "@,
    }
}

/// The character text the fallback display uses for a token id.
pub fn token_to_char(token: i32) -> (r: &'static str)
    ensures
        r@ == spec_token_char(token),
{
    match token {
        0 => " ",
        1 => "A",
        2 => "B",
        3 => "C",
        4 => "D",
        5 => "E",
        6 => "F",
        7 => "G",
        8 => "H",
        9 => "I",
        10 => "J",
        11 => "K",
        12 => "L",
        13 => "\n",
        14 => "M",
        15 => "N",
        16 => "O",
        17 => "P",
        18 => "Q",
        19 => "R",
        20 => "S",
        21 => "T",
        22 => "U",
        23 => "V",
        24 => "W",
        25 => "X",
        26 => "Y",
        27 => "Z",
        28 => "a",
        29 => "b",
        30 => "c",
        31 => "d",
        32 => " ",
        33 => "!",
        34 => "\"",
        35 => "#",
        36 => "$",
        37 => "%",
        38 => "&",
        39 => "'",
        40 => "(",
        41 => ")",
        42 => "*",
        43 => "+",
        44 => ",",
        45 => "-",
        46 => ".",
        47 => "/",
        48 => "0",
        49 => "1",
        50 => "2",
        51 => "3",
        52 => "4",
        53 => "5",
        54 => "6",
        55 => "7",
        56 => "8",
        57 => "9",
        58 => ":",
        59 => ";",
        60 => "<",
        61 => "=",
        62 => ">",
        63 => "?",
        64 => "@",
        _ => " ",
    }
}

/// The fallback word list.
pub open spec fn fallback_words() -> Seq<Seq<char>> {
    seq![
        "the"@,
        "is"@,
        "are"@,
        "was"@,
        "were"@,
        "be"@,
        "have"@,
        "has"@,
        "do"@,
        "does"@,
        "will"@,
        "would"@,
        "could"@,
        "should"@,
        "to"@,
        "of"@,
        "in"@,
        "for"@,
        "on"@,
        "with"@,
        "at"@,
        "by"@,
        "from"@,
        "and"@,
        "or"@,
        "but"@,
        "not"@,
        "you"@,
        "your"@,
        "we"@,
        "our"@,
        "it"@,
        "its"@,
        "he"@,
        "she"@,
        "they"@,
        "them"@,
        "this"@,
        "that"@,
        "what"@,
        "how"@,
        "when"@,
        "where"@,
        "why"@,
        "hello"@,
        "hi"@,
        "good"@,
        "bad"@,
        "new"@,
        "old"@,
        "yes"@,
        "no"@,
    ]
}

/// The absolute value of a token id, as the fallback list is indexed by it.
pub open spec fn token_magnitude(token: i32) -> nat {
    if token < 0 { (-token) as nat } else { token as nat }
}

/// A word standing for a token id when no vocabulary is at hand: the fallback list indexed by
/// the magnitude of the id, wrapping around.
pub fn token_to_fallback_text(token: i32) -> (r: &'static str)
    ensures
        r@ == fallback_words()[(token_magnitude(token) % 52) as int],
{
    let words: [&str; 52] = [
        "the",
        "is",
        "are",
        "was",
        "were",
        "be",
        "have",
        "has",
        "do",
        "does",
        "will",
        "would",
        "could",
        "should",
        "to",
        "of",
        "in",
        "for",
        "on",
        "with",
        "at",
        "by",
        "from",
        "and",
        "or",
        "but",
        "not",
        "you",
        "your",
        "we",
        "our",
        "it",
        "its",
        "he",
        "she",
        "they",
        "them",
        "this",
        "that",
        "what",
        "how",
        "when",
        "where",
        "why",
        "hello",
        "hi",
        "good",
        "bad",
        "new",
        "old",
        "yes",
        "no",
    ];
    let mag: u64 = if token < 0 { (0i64 - token as i64) as u64 } else { token as u64 };
    let idx: usize = (mag % 52) as usize;
    proof {
        assert(words@.map_values(|w: &str| w@) =~= fallback_words());
        assert(words@.map_values(|w: &str| w@)[idx as int] == words@[idx as int]@);
    }
    words[idx]
}

/// Steps a chat turn may generate at most.
pub const CHAT_MAX_STEPS: usize = 512;

/// What a line typed in the chat asks for.
#[derive(Debug, Clone, Copy, PartialEq, Eq, Structural)]
pub enum ChatInput {
    /// Nothing but whitespace.
    Blank,
    /// `quit` or `exit`.
    Quit,
    /// `clear`: forget the conversation.
    Clear,
    /// `help`: show the commands.
    Help,
    /// Anything else: a prompt.
    Prompt,
}

/// What a trimmed chat line asks for.
pub open spec fn spec_chat_input(t: Seq<char>) -> ChatInput {
    if t.len() == 0 {
        ChatInput::Blank
    } else if t == seq!['q', 'u', 'i', 't'] || t == seq!['e', 'x', 'i', 't'] {
        ChatInput::Quit
    } else if t == seq!['c', 'l', 'e', 'a', 'r'] {
        ChatInput::Clear
    } else if t == seq!['h', 'e', 'l', 'p'] {
        ChatInput::Help
    } else {
        ChatInput::Prompt
    }
}

fn chars_are(t: &Vec<char>, w: &[char]) -> (r: bool)
    ensures
        r == (t@ == w@),
{
    if t.len() != w.len() {
        return false;
    }
    let mut i: usize = 0;
    while i < w.len()
        invariant
            t@.len() == w@.len(),
            i <= w@.len(),
            forall|k: int| 0 <= k < i ==> t@[k] == w@[k],
        decreases w@.len() - i,
    {
        if t[i] != w[i] {
            return false;
        }
        i += 1;
    }
    assert(t@ =~= w@);
    true
}

/// Reads a chat line, leading and trailing whitespace aside.
pub fn classify_chat_input(line: &str) -> (c: ChatInput)
    ensures
        c == spec_chat_input(spec_trim(line@)),
{
    let t = trim_chars(chars_of(line).as_slice());
    if t.len() == 0 {
        ChatInput::Blank
    } else if chars_are(&t, &['q', 'u', 'i', 't']) || chars_are(&t, &['e', 'x', 'i', 't']) {
        ChatInput::Quit
    } else if chars_are(&t, &['c', 'l', 'e', 'a', 'r']) {
        ChatInput::Clear
    } else if chars_are(&t, &['h', 'e', 'l', 'p']) {
        ChatInput::Help
    } else {
        ChatInput::Prompt
    }
}

/// The text of a chat line that is tokenized as a prompt: the line, trimmed.
pub fn chat_prompt_text(line: &str) -> (r: String)
    ensures
        r@ == spec_trim(line@),
{
    let t = trim_chars(chars_of(line).as_slice());
    string_from_chars(t.as_slice())
}

/// What the chat does after reading a line.
#[derive(Debug, Clone, Copy, PartialEq, Eq, Structural)]
pub enum ChatAction {
    /// End the chat.
    Stop,
    /// Read the next line.
    Next,
    /// The history was forgotten; read the next line.
    Cleared,
    /// Show the commands, then read the next line.
    ShowHelp,
    /// The prompt joined the history; generate a reply.
    Generate,
}

/// The chat's decision on a line read as `input`: a prompt (tokenized as `prompt`) joins the
/// history and starts a reply; `clear` empties the history; `quit`/`exit` ends the chat;
/// `help` and blank lines leave the history alone. `prompt` is used for prompts only.
pub fn chat_after_input(history: &mut Vec<Token>, input: ChatInput, prompt: &[Token]) -> (a: ChatAction)
    ensures
        input == ChatInput::Quit ==> a == ChatAction::Stop && final(history)@ == old(history)@,
        input == ChatInput::Blank ==> a == ChatAction::Next && final(history)@ == old(history)@,
        input == ChatInput::Clear ==> a == ChatAction::Cleared && final(history)@.len() == 0,
        input == ChatInput::Help ==> a == ChatAction::ShowHelp && final(history)@ == old(history)@,
        input == ChatInput::Prompt ==> a == ChatAction::Generate && final(history)@ == old(history)@ + prompt@,
{
    match input {
        ChatInput::Quit => ChatAction::Stop,
        ChatInput::Blank => ChatAction::Next,
        ChatInput::Clear => {
            history.clear();
            ChatAction::Cleared
        },
        ChatInput::Help => ChatAction::ShowHelp,
        ChatInput::Prompt => {
            let mut i: usize = 0;
            while i < prompt.len()
                invariant
                    i <= prompt@.len(),
                    history@ == old(history)@ + prompt@.subrange(0, i as int),
                decreases prompt@.len() - i,
            {
                history.push(prompt[i]);
                proof {
                    assert(prompt@.subrange(0, i + 1) =~= prompt@.subrange(0, i as int).push(prompt@[i as int]));
                }
                i += 1;
            }
            assert(prompt@.subrange(0, prompt@.len() as int) =~= prompt@);
            ChatAction::Generate
        },
    }
}

/// What a reply does after step `step` sampled `token`.
#[derive(Debug, Clone, Copy, PartialEq, Eq, Structural)]
pub enum GenStep {
    /// The reply is over; the token is dropped.
    Stop,
    /// The token joined the history; show it and go on.
    Emit,
    /// The token joined the history; show it, and the reply is over.
    EmitAndStop,
}

/// The chat's decision on the token sampled at step `step` (from 0) of a reply: a token of
/// 0 or less ends the reply unshown; any other joins the history and is shown, and the reply
/// ends after step `CHAT_MAX_STEPS - 1`.
pub fn chat_after_token(history: &mut Vec<Token>, step: usize, token: Token) -> (n: GenStep)
    ensures
        token <= 0 ==> n == GenStep::Stop && final(history)@ == old(history)@,
        token > 0 ==> final(history)@ == old(history)@.push(token) && n == (if step + 1 >= CHAT_MAX_STEPS {
            GenStep::EmitAndStop
        } else {
            GenStep::Emit
        }),
{
    if token <= 0 {
        return GenStep::Stop;
    }
    history.push(token);
    if step >= CHAT_MAX_STEPS - 1 {
        GenStep::EmitAndStop
    } else {
        GenStep::Emit
    }
}

/// The text shown for a generated token: its vocabulary text when there is one that is not
/// empty, does not start with `<` and is at most 10 bytes long; the fallback word otherwise.
pub fn display_text<'a>(decoded: Option<&'a str>, token: Token) -> (r: &'a str)
    ensures
        (match decoded {
            Some(t) => !(t@.len() == 0 || t@[0] == '<' || t.spec_bytes().len() > 10),
            None => false,
        }) ==> r@ == decoded.unwrap()@,
        !(match decoded {
            Some(t) => !(t@.len() == 0 || t@[0] == '<' || t.spec_bytes().len() > 10),
            None => false,
        }) ==> r@ == fallback_words()[(token_magnitude(token) % 52) as int],
{
    match decoded {
        Some(text) => {
            let cs = chars_of(text);
            let shown = !(cs.len() == 0 || cs[0] == '<' || text.as_bytes().len() > 10);
            if shown {
                text
            } else {
                token_to_fallback_text(token)
            }
        },
        None => token_to_fallback_text(token),
    }
}

} // verus!
