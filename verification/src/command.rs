//! What a line typed by the user asks for.

use crate::text::{chars_of, is_white_space, trim_bounds, trimmed, white_space};
use vstd::prelude::*;
use vstd::string::{StrSliceExecFns, StringExecFns};

verus! {

/// What the user asks for with one line.
#[derive(Clone, Debug, PartialEq, Eq)]
pub enum Command {
    /// Send a message with this text.
    Say(String),
    /// Go by this name from now on.
    Rename(String),
    /// Announce oneself.
    Join,
    /// Say goodbye.
    Leave,
    /// End the session.
    Exit,
    /// An action that is not known, as it was typed.
    Unknown(String),
    /// Nothing to do.
    Nothing,
}

/// The mathematical content of a [`Command`].
pub enum CommandModel {
    Say(Seq<char>),
    Rename(Seq<char>),
    Join,
    Leave,
    Exit,
    Unknown(Seq<char>),
    Nothing,
}

impl View for Command {
    type V = CommandModel;

    open spec fn view(&self) -> CommandModel {
        match *self {
            Command::Say(text) => CommandModel::Say(text@),
            Command::Rename(name) => CommandModel::Rename(name@),
            Command::Join => CommandModel::Join,
            Command::Leave => CommandModel::Leave,
            Command::Exit => CommandModel::Exit,
            Command::Unknown(action) => CommandModel::Unknown(action@),
            Command::Nothing => CommandModel::Nothing,
        }
    }
}

/// How many characters stand before the first white space of `s`, or in all
/// of `s` where it has none.
pub open spec fn word_end(s: Seq<char>) -> int
    decreases s.len(),
{
    if s.len() == 0 || is_white_space(s[0]) {
        0
    } else {
        1 + word_end(s.skip(1))
    }
}

/// The first white space is where no character before it is one.
pub proof fn lemma_word_end(s: Seq<char>, n: int)
    requires
        0 <= n <= s.len(),
        forall|i: int| 0 <= i < n ==> !is_white_space(s[i]),
        n < s.len() ==> is_white_space(s[n]),
    ensures
        word_end(s) == n,
    decreases n,
{
    if n > 0 {
        lemma_word_end(s.skip(1), n - 1);
    }
}

/// The action of a line that begins with a slash: its first word.
pub open spec fn action_of(line: Seq<char>) -> Seq<char> {
    line.subrange(0, word_end(line))
}

/// What follows the action, trimmed; nothing where the action is all there
/// is.
pub open spec fn argument_of(line: Seq<char>) -> Seq<char> {
    if 0 <= word_end(line) < line.len() {
        trimmed(line.subrange(word_end(line) + 1, line.len() as int))
    } else {
        Seq::empty()
    }
}

/// What a line asks for. The line counts trimmed. One that begins with a
/// slash is an action with its argument; any other is a message to send,
/// unless it is empty.
pub open spec fn command_of(line: Seq<char>) -> CommandModel {
    let t = trimmed(line);
    if t.len() > 0 && t[0] == '/' {
        let action = action_of(t);
        let rest = argument_of(t);
        if action == "/send"@ {
            if rest.len() == 0 {
                CommandModel::Nothing
            } else {
                CommandModel::Say(rest)
            }
        } else if action == "/name"@ {
            CommandModel::Rename(rest)
        } else if action == "/join"@ {
            CommandModel::Join
        } else if action == "/leave"@ {
            CommandModel::Leave
        } else if action == "/exit"@ {
            CommandModel::Exit
        } else {
            CommandModel::Unknown(action)
        }
    } else if t.len() == 0 {
        CommandModel::Nothing
    } else {
        CommandModel::Say(t)
    }
}

/// Whether `text` reads `word`.
fn reads(text: &str, word: &str) -> (same: bool)
    ensures
        same == (text@ == word@),
{
    String::from_str(text) == String::from_str(word)
}

/// Reads what `line` asks for.
pub fn parse_command(line: &str) -> (command: Command)
    ensures
        command@ == command_of(line@),
{
    let chars = chars_of(line);
    let (from, to) = trim_bounds(chars.as_slice(), 0, chars.len());
    assert(chars@.subrange(0, chars@.len() as int) =~= chars@);
    let ghost t = trimmed(line@);
    if from == to {
        return Command::Nothing;
    }
    if chars[from] != '/' {
        return Command::Say(String::from_str(line.substring_char(from, to)));
    }
    let mut end: usize = from;
    while end < to && !white_space(chars[end])
        invariant
            from <= end <= to <= chars@.len(),
            forall|i: int| from <= i < end ==> !is_white_space(chars@[i]),
        decreases to - end,
    {
        end += 1;
    }
    proof {
        lemma_word_end(t, end - from);
        assert(chars@.subrange(from as int, end as int) =~= action_of(t));
    }
    let action = line.substring_char(from, end);
    let (rest_from, rest_to) = if end < to {
        trim_bounds(chars.as_slice(), end + 1, to)
    } else {
        (to, to)
    };
    proof {
        if end < to {
            assert(chars@.subrange(end + 1, to as int) =~= t.subrange(
                word_end(t) + 1,
                t.len() as int,
            ));
        } else {
            assert(chars@.subrange(to as int, to as int) =~= Seq::<char>::empty());
        }
    }
    let rest = line.substring_char(rest_from, rest_to);
    if reads(action, "/send") {
        if rest_from == rest_to {
            Command::Nothing
        } else {
            Command::Say(String::from_str(rest))
        }
    } else if reads(action, "/name") {
        Command::Rename(String::from_str(rest))
    } else if reads(action, "/join") {
        Command::Join
    } else if reads(action, "/leave") {
        Command::Leave
    } else if reads(action, "/exit") {
        Command::Exit
    } else {
        Command::Unknown(String::from_str(action))
    }
}

} // verus!
