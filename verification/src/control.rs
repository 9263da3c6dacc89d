//! The control protocol: one line of text in, one command or one refusal out.
//!
//! A line is a keyword, optionally whitespace and a parameter, and trailing
//! whitespace. Keywords are matched exactly, letter case included.

use crate::addr::Ipv4Addr;
use crate::text::{literal_address, scan_address, to_chars};
use vstd::prelude::*;
use vstd::string::*;

verus! {

/// The set of commands that may be issued via the control socket.
#[derive(Clone, Copy, Debug, Eq, PartialEq, Structural)]
pub enum Command {
    /// List the packet counts by source address.
    ListSrcIps,
    /// List the packet counts by destination address.
    ListDstIps,
    /// List the blocklist.
    ListBlockSrc,
    /// Drop every packet that comes from this address.
    BlockSrc(Ipv4Addr),
}

/// The sending half of a single-use channel, as `tokio` provides it. Nothing
/// is known of what is inside one.
#[verifier::external_type_specification]
#[verifier::external_body]
#[verifier::reject_recursive_types(T)]
pub struct ExReplySender<T>(tokio::sync::oneshot::Sender<T>);

/// A command together with the channel on which its reply is awaited.
///
/// The reply channel takes exactly one text, and taking it uses the request
/// up.
#[derive(Debug)]
pub struct CommandRequest {
    pub command: Command,
    pub reply: tokio::sync::oneshot::Sender<String>,
}

/// Why a line is not a command.
#[derive(Clone, Copy, Debug, Eq, PartialEq, Structural)]
pub enum ParseError {
    /// The parameter of `block-src` is not an address.
    InvalidIp,
    /// `list-src` or `list-dst` was given a parameter.
    UnexpectedParameters,
    /// `block-src` was given no parameter.
    MissingParameters,
    /// Anything else.
    InvalidCommand,
}

impl ParseError {
    /// The line that tells the client what was wrong.
    pub open spec fn spec_notice(self) -> Seq<char> {
        match self {
            ParseError::InvalidIp => "could not parse ip: invalid IPv4 address syntax\n"@,
            ParseError::UnexpectedParameters => "unexpected parameters\n"@,
            ParseError::MissingParameters => "command requires parameters\n"@,
            ParseError::InvalidCommand => "invalid command\n"@,
        }
    }

    /// The error as a short phrase.
    pub open spec fn spec_describe(self) -> Seq<char> {
        match self {
            ParseError::InvalidIp => "invalid ip address"@,
            ParseError::UnexpectedParameters => "unexpected parameters"@,
            ParseError::MissingParameters => "command requires parameters"@,
            ParseError::InvalidCommand => "invalid command"@,
        }
    }

    /// The line that tells the client what was wrong.
    pub fn notice(&self) -> (text: String)
        ensures
            text@ == self.spec_notice(),
    {
        match self {
            ParseError::InvalidIp => String::from_str(
                "could not parse ip: invalid IPv4 address syntax\n",
            ),
            ParseError::UnexpectedParameters => String::from_str("unexpected parameters\n"),
            ParseError::MissingParameters => String::from_str("command requires parameters\n"),
            ParseError::InvalidCommand => String::from_str("invalid command\n"),
        }
    }

    /// The error as a short phrase.
    pub fn describe(&self) -> (text: String)
        ensures
            text@ == self.spec_describe(),
    {
        match self {
            ParseError::InvalidIp => String::from_str("invalid ip address"),
            ParseError::UnexpectedParameters => String::from_str("unexpected parameters"),
            ParseError::MissingParameters => String::from_str("command requires parameters"),
            ParseError::InvalidCommand => String::from_str("invalid command"),
        }
    }
}

/// Whether `c` is whitespace: a character with the Unicode property
/// `White_Space`.
pub open spec fn is_whitespace(c: char) -> bool {
    let code = c as u32;
    ||| 0x09 <= code <= 0x0D
    ||| code == 0x20
    ||| code == 0x85
    ||| code == 0xA0
    ||| code == 0x1680
    ||| 0x2000 <= code <= 0x200A
    ||| code == 0x2028
    ||| code == 0x2029
    ||| code == 0x202F
    ||| code == 0x205F
    ||| code == 0x3000
}

/// A line without the whitespace at its end.
pub open spec fn trimmed(line: Seq<char>) -> Seq<char>
    decreases line.len(),
{
    if line.len() > 0 && is_whitespace(line.last()) {
        trimmed(line.drop_last())
    } else {
        line
    }
}

/// The first position at or after `from` whose character is whitespace
/// (where `white` holds) or is not (where it does not), or the length of the
/// text where there is none.
pub open spec fn first_with(text: Seq<char>, white: bool, from: int) -> int
    decreases text.len() - from,
{
    if from >= text.len() {
        text.len() as int
    } else if is_whitespace(text[from]) == white {
        from
    } else {
        first_with(text, white, from + 1)
    }
}

/// Where the keyword of a trimmed line ends: at its first whitespace, or at
/// the end of a line that has none.
pub open spec fn keyword_end(text: Seq<char>) -> int {
    first_with(text, true, 0)
}

/// Where the parameter of a trimmed line begins: after the whitespace that
/// follows the keyword.
pub open spec fn parameter_start(text: Seq<char>) -> int {
    first_with(text, false, keyword_end(text))
}

/// What a line asks for.
///
/// The keyword is what stands before the first whitespace of the trimmed
/// line, and the parameter is all that follows the whitespace after the
/// keyword. `list-src` and `list-dst` take no parameter, `block-src` takes an
/// address, and `list-block-src` with a parameter is no command at all.
pub open spec fn parsed(line: Seq<char>) -> Result<Command, ParseError> {
    let text = trimmed(line);
    let word = text.take(keyword_end(text));
    let bare = keyword_end(text) == text.len();
    if word == "list-src"@ {
        if bare {
            Ok(Command::ListSrcIps)
        } else {
            Err(ParseError::UnexpectedParameters)
        }
    } else if word == "list-dst"@ {
        if bare {
            Ok(Command::ListDstIps)
        } else {
            Err(ParseError::UnexpectedParameters)
        }
    } else if word == "list-block-src"@ && bare {
        Ok(Command::ListBlockSrc)
    } else if word == "block-src"@ {
        if bare {
            Err(ParseError::MissingParameters)
        } else {
            match literal_address(text.skip(parameter_start(text))) {
                Some(ip) => Ok(Command::BlockSrc(ip)),
                None => Err(ParseError::InvalidIp),
            }
        }
    } else {
        Err(ParseError::InvalidCommand)
    }
}

/// A position whose character is of the kind looked for, or the end of the
/// text, with no such character between `from` and it, is where `first_with`
/// points.
pub proof fn lemma_first_with_is(text: Seq<char>, white: bool, from: int, at: int)
    requires
        0 <= from <= at <= text.len(),
        forall|j: int| from <= j < at ==> is_whitespace(text[j]) != white,
        at == text.len() || is_whitespace(text[at]) == white,
    ensures
        first_with(text, white, from) == at,
    decreases at - from,
{
    if from < at {
        lemma_first_with_is(text, white, from + 1, at);
    }
}

/// Where `first_with` points: at a character of the kind looked for with
/// none between `from` and it, or at the end of a text that has none from
/// `from` on.
pub proof fn lemma_first_with_bounds(text: Seq<char>, white: bool, from: int)
    requires
        0 <= from <= text.len(),
    ensures
        from <= first_with(text, white, from) <= text.len(),
        first_with(text, white, from) < text.len() ==> is_whitespace(
            text[first_with(text, white, from)],
        ) == white,
        forall|j: int|
            from <= j < first_with(text, white, from) ==> is_whitespace(text[j]) != white,
    decreases text.len() - from,
{
    if from < text.len() && is_whitespace(text[from]) != white {
        lemma_first_with_bounds(text, white, from + 1);
    }
}

/// A trimmed line is the front of the line and does not end in whitespace.
pub proof fn lemma_trimmed_end(line: Seq<char>)
    ensures
        trimmed(line).len() <= line.len(),
        trimmed(line) == line.take(trimmed(line).len() as int),
        trimmed(line).len() > 0 ==> !is_whitespace(trimmed(line).last()),
    decreases line.len(),
{
    if line.len() > 0 && is_whitespace(line.last()) {
        lemma_trimmed_end(line.drop_last());
        let short = trimmed(line).len() as int;
        assert(line.drop_last().take(short) =~= line.take(short));
    } else {
        assert(line.take(line.len() as int) =~= line);
    }
}

/// A trimmed line that has a parameter has one that is not empty and does
/// not begin with whitespace.
pub proof fn lemma_parameter_is_not_empty(line: Seq<char>)
    requires
        keyword_end(trimmed(line)) < trimmed(line).len(),
    ensures
        keyword_end(trimmed(line)) < parameter_start(trimmed(line)) < trimmed(line).len(),
        !is_whitespace(trimmed(line)[parameter_start(trimmed(line))]),
{
    let text = trimmed(line);
    lemma_trimmed_end(line);
    lemma_first_with_bounds(text, true, 0);
    lemma_first_with_bounds(text, false, keyword_end(text));
}

/// Whether `c` is whitespace.
fn whitespace(c: char) -> (yes: bool)
    ensures
        yes == is_whitespace(c),
{
    let code: u32 = c as u32;
    (0x09 <= code && code <= 0x0D) || code == 0x20 || code == 0x85 || code == 0xA0 || code
        == 0x1680 || (0x2000 <= code && code <= 0x200A) || code == 0x2028 || code == 0x2029
        || code == 0x202F || code == 0x205F || code == 0x3000
}

/// The length of the line without the whitespace at its end.
fn trimmed_len(chars: &Vec<char>) -> (len: usize)
    ensures
        len <= chars@.len(),
        chars@.take(len as int) == trimmed(chars@),
{
    let mut len: usize = chars.len();
    assert(chars@.take(len as int) =~= chars@);
    while len > 0 && whitespace(chars[len - 1])
        invariant
            len <= chars@.len(),
            trimmed(chars@.take(len as int)) == trimmed(chars@),
        decreases len,
    {
        assert(chars@.take(len as int).drop_last() =~= chars@.take(len - 1));
        len -= 1;
    }
    len
}

/// Whether the first `len` characters are exactly `word`.
fn starts_as(chars: &Vec<char>, len: usize, word: &str) -> (same: bool)
    requires
        len <= chars@.len(),
    ensures
        same == (chars@.take(len as int) == word@),
{
    let letters = to_chars(word);
    if letters.len() != len {
        return false;
    }
    let mut i: usize = 0;
    while i < len
        invariant
            i <= len <= chars@.len(),
            letters@.len() == len,
            letters@ == word@,
            forall|j: int| 0 <= j < i ==> chars@[j] == letters@[j],
        decreases len - i,
    {
        if chars[i] != letters[i] {
            assert(chars@.take(len as int)[i as int] != word@[i as int]);
            return false;
        }
        i += 1;
    }
    assert(chars@.take(len as int) =~= word@);
    true
}

/// The first position from `from` up to `to` whose character is whitespace
/// (where `white` holds) or is not, or `to`.
fn find_with(chars: &Vec<char>, white: bool, from: usize, to: usize) -> (at: usize)
    requires
        from <= to <= chars@.len(),
    ensures
        from <= at <= to,
        at == first_with(chars@.take(to as int), white, from as int),
{
    let mut at: usize = from;
    while at < to && whitespace(chars[at]) != white
        invariant
            from <= at <= to <= chars@.len(),
            forall|j: int| from <= j < at ==> is_whitespace(chars@[j]) != white,
        decreases to - at,
    {
        at += 1;
    }
    proof {
        lemma_first_with_is(chars@.take(to as int), white, from as int, at as int);
    }
    at
}

/// Reads one line of the control protocol.
pub fn parse_command(line: &str) -> (outcome: Result<Command, ParseError>)
    ensures
        outcome == parsed(line@),
{
    let chars = to_chars(line);
    let end: usize = trimmed_len(&chars);
    let ghost text = chars@.take(end as int);
    let stop: usize = find_with(&chars, true, 0, end);
    let bare: bool = stop == end;
    let start: usize = find_with(&chars, false, stop, end);
    proof {
        assert(text.take(stop as int) =~= chars@.take(stop as int));
        assert(text.skip(start as int) =~= chars@.subrange(start as int, end as int));
    }
    if starts_as(&chars, stop, "list-src") {
        if bare {
            Ok(Command::ListSrcIps)
        } else {
            Err(ParseError::UnexpectedParameters)
        }
    } else if starts_as(&chars, stop, "list-dst") {
        if bare {
            Ok(Command::ListDstIps)
        } else {
            Err(ParseError::UnexpectedParameters)
        }
    } else if bare && starts_as(&chars, stop, "list-block-src") {
        Ok(Command::ListBlockSrc)
    } else if starts_as(&chars, stop, "block-src") {
        if bare {
            Err(ParseError::MissingParameters)
        } else {
            match scan_address(&chars, start, end) {
                Some(ip) => Ok(Command::BlockSrc(ip)),
                None => Err(ParseError::InvalidIp),
            }
        }
    } else {
        Err(ParseError::InvalidCommand)
    }
}

/// What a connection does after it has read a line.
#[derive(Clone, Copy, Debug, Eq, PartialEq, Structural)]
pub enum Step {
    /// The client has closed the connection: nothing to answer.
    Close,
    /// The line is no command: tell the client and end with this error.
    Refuse(ParseError),
    /// Hand the command to the executor and write its reply to the client.
    Submit(Command),
}

/// The step that follows a read of `read` bytes that gave `line`.
pub open spec fn spec_next_step(read: usize, line: Seq<char>) -> Step {
    if read == 0 {
        Step::Close
    } else {
        match parsed(line) {
            Ok(command) => Step::Submit(command),
            Err(error) => Step::Refuse(error),
        }
    }
}

/// Decides what a connection does with the line it has read. A read of no
/// bytes is the end of the stream; any other line is either handed on as a
/// command or refused, and nothing is handed on for a refused line.
pub fn next_step(read: usize, line: &str) -> (step: Step)
    ensures
        step == spec_next_step(read, line@),
{
    if read == 0 {
        return Step::Close;
    }
    match parse_command(line) {
        Ok(command) => Step::Submit(command),
        Err(error) => Step::Refuse(error),
    }
}

} // verus!
