//! Recognition and execution of the backslash commands a user can send.

use vstd::prelude::*;
use crate::text::{chars_of, is_whitespace, same_chars, scan_words, split_words};

verus! {

/// Whether the agent's main loop goes on after a message.
#[derive(Debug, PartialEq, Eq, Structural)]
pub enum LoopControl {
    Continue,
    Break,
}

/// A command a user can give by writing its backslash word.
#[derive(Debug, PartialEq, Eq, Structural, Clone, Copy)]
pub enum Command {
    Shutdown,
    Help,
    Current,
    List,
}

/// The name of a command, as it is displayed.
pub open spec fn command_name(c: Command) -> Seq<char> {
    match c {
        Command::Shutdown => "shutdown"@,
        Command::Current => "current"@,
        Command::Help => "help"@,
        Command::List => "list"@,
    }
}

/// The command that a whole word stands for, if any.
pub open spec fn command_of(word: Seq<char>) -> Option<Command> {
    if word == "\\shutdown"@ {
        Some(Command::Shutdown)
    } else if word == "\\current"@ {
        Some(Command::Current)
    } else if word == "\\help"@ {
        Some(Command::Help)
    } else if word == "\\list"@ {
        Some(Command::List)
    } else {
        None
    }
}

/// The commands among `words`, in order; other words are skipped.
pub open spec fn commands_in(words: Seq<Seq<char>>) -> Seq<Command>
    decreases words.len(),
{
    if words.len() == 0 {
        Seq::empty()
    } else {
        let before = commands_in(words.drop_last());
        match command_of(words.last()) {
            Some(c) => before.push(c),
            None => before,
        }
    }
}

/// The commands that a message holds: its whitespace-separated words that
/// are exactly a command word.
pub open spec fn message_commands(input: Seq<char>) -> Seq<Command> {
    commands_in(split_words(input))
}

impl Command {
    /// The command's display name.
    pub fn to_text(&self) -> (s: String)
        ensures
            s@ == command_name(*self),
    {
        match self {
            Command::Shutdown => String::from_str("shutdown"),
            Command::Current => String::from_str("current"),
            Command::Help => String::from_str("help"),
            Command::List => String::from_str("list"),
        }
    }
}

fn command_of_word(word: &Vec<char>) -> (c: Option<Command>)
    ensures
        c == command_of(word@),
{
    if same_chars(word, "\\shutdown") {
        Some(Command::Shutdown)
    } else if same_chars(word, "\\current") {
        Some(Command::Current)
    } else if same_chars(word, "\\help") {
        Some(Command::Help)
    } else if same_chars(word, "\\list") {
        Some(Command::List)
    } else {
        None
    }
}

/// The commands that `input` holds, in the order they appear.
pub fn identify_commands(input: &str) -> (commands: Vec<Command>)
    ensures
        commands@ == message_commands(input@),
{
    let chars = chars_of(input);
    let mut commands: Vec<Command> = Vec::new();
    let mut cur: Vec<char> = Vec::new();
    let mut i: usize = 0;
    while i < chars.len()
        invariant
            chars@ == input@,
            i <= chars@.len(),
            cur@ == scan_words(chars@.take(i as int)).1,
            commands@ == commands_in(scan_words(chars@.take(i as int)).0),
        decreases chars.len() - i,
    {
        let c = chars[i];
        assert(chars@.take(i + 1).drop_last() =~= chars@.take(i as int));
        if is_whitespace(c) {
            if cur.len() > 0 {
                let found = command_of_word(&cur);
                match found {
                    Some(cmd) => commands.push(cmd),
                    None => {},
                }
                proof {
                    let done = scan_words(chars@.take(i as int)).0;
                    assert(done.push(cur@).drop_last() =~= done);
                }
                cur = Vec::new();
            }
        } else {
            cur.push(c);
        }
        i = i + 1;
    }
    assert(chars@.take(chars@.len() as int) =~= chars@);
    if cur.len() > 0 {
        let found = command_of_word(&cur);
        proof {
            let done = scan_words(chars@).0;
            assert(done.push(cur@).drop_last() =~= done);
        }
        match found {
            Some(cmd) => commands.push(cmd),
            None => {},
        }
    }
    commands
}


/// The text of the help message.
pub open spec fn help_text() -> Seq<char> {
    "Available commands:\n- \\shutdown: Shuts down the system.\n- \\current: Displays the current Job.\n- \\help: Shows this help message.\n- \\list: Shows all Jobs in memory."@
}

/// The reply that executing a command gives.
pub open spec fn response_for(c: Command) -> Seq<char> {
    match c {
        Command::Shutdown => "Executing shutdown..."@,
        Command::Current => "Executing current..."@,
        Command::Help => help_text(),
        Command::List => "Not implemented command: "@ + command_name(c),
    }
}

/// The help message listing the available commands.
pub fn get_help_message() -> (s: String)
    ensures
        s@ == help_text(),
{
    String::from_str(
        "Available commands:\n- \\shutdown: Shuts down the system.\n- \\current: Displays the current Job.\n- \\help: Shows this help message.\n- \\list: Shows all Jobs in memory.",
    )
}

fn execute_command(c: Command) -> (s: String)
    ensures
        s@ == response_for(c),
{
    match c {
        Command::Shutdown => String::from_str("Executing shutdown..."),
        Command::Current => String::from_str("Executing current..."),
        Command::Help => get_help_message(),
        Command::List => {
            let name = c.to_text();
            String::from_str("Not implemented command: ").concat(name.as_str())
        },
    }
}

/// Executes the commands that `input` holds, in order. Gives one reply per
/// command, and `Break` exactly when one of them is `\shutdown`.
pub fn resolve_commands(input: &str) -> (res: (LoopControl, Vec<String>))
    ensures
        res.1@.len() == message_commands(input@).len(),
        forall|i: int|
            0 <= i < res.1@.len() ==> #[trigger] res.1@[i]@ == response_for(
                message_commands(input@)[i],
            ),
        (res.0 == LoopControl::Break) <==> message_commands(input@).contains(Command::Shutdown),
{
    let commands = identify_commands(input);
    let mut shutdown_encountered = false;
    let mut responses: Vec<String> = Vec::new();
    let mut i: usize = 0;
    while i < commands.len()
        invariant
            i <= commands@.len(),
            responses@.len() == i,
            forall|j: int| 0 <= j < i ==> #[trigger] responses@[j]@ == response_for(commands@[j]),
            shutdown_encountered <==> commands@.take(i as int).contains(Command::Shutdown),
        decreases commands.len() - i,
    {
        let cmd = commands[i];
        if cmd == Command::Shutdown {
            shutdown_encountered = true;
        }
        responses.push(execute_command(cmd));
        proof {
            let t = commands@.take(i + 1);
            assert(t.drop_last() =~= commands@.take(i as int));
            assert(t.last() == cmd);
            if cmd == Command::Shutdown {
                assert(t.contains(cmd));
            } else {
                assert forall|x: Command| t.contains(x) implies commands@.take(i as int).contains(x)
                    || x == cmd by {
                    let k = choose|k: int| 0 <= k < t.len() && t[k] == x;
                    if k < i {
                        assert(commands@.take(i as int)[k] == x);
                    }
                }
                if commands@.take(i as int).contains(Command::Shutdown) {
                    let k = choose|k: int| 0 <= k < i && commands@.take(i as int)[k] == Command::Shutdown;
                    assert(t[k] == Command::Shutdown);
                }
            }
        }
        i = i + 1;
    }
    assert(commands@.take(commands@.len() as int) =~= commands@);
    if shutdown_encountered {
        (LoopControl::Break, responses)
    } else {
        (LoopControl::Continue, responses)
    }
}

} // verus!
