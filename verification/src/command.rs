//! The commands of a session.

use vstd::prelude::*;

verus! {

/// What the user can ask of the debugger.
#[derive(Debug, PartialEq, Eq)]
pub enum DebuggerCommand {
    /// End the session.
    Quit,
    /// Start the target afresh with these arguments.
    Run(Vec<String>),
    /// Let the stopped target run on.
    Continue,
    /// Show where the target stands.
    Backtrace,
    /// Set a breakpoint at this location.
    BreakPoint(String),
}

/// The kind of a command, which its first word decides.
#[derive(Clone, Copy, Debug, PartialEq, Eq, Structural)]
pub enum Verb {
    Quit,
    Run,
    Continue,
    Backtrace,
    Break,
}

/// The verb that `word` names, in full or by its abbreviation.
pub open spec fn verb_named(word: Seq<char>) -> Option<Verb> {
    if word == "q"@ || word == "quit"@ {
        Some(Verb::Quit)
    } else if word == "r"@ || word == "run"@ {
        Some(Verb::Run)
    } else if word == "c"@ || word == "cont"@ || word == "continue"@ {
        Some(Verb::Continue)
    } else if word == "bt"@ || word == "back"@ || word == "backtrace"@ {
        Some(Verb::Backtrace)
    } else if word == "b"@ || word == "break"@ {
        Some(Verb::Break)
    } else {
        None
    }
}

/// The texts of a list of words.
pub open spec fn texts(words: Seq<String>) -> Seq<Seq<char>> {
    words.map_values(|w: String| w@)
}

/// Whether `command` is what the words `tokens` ask for. `run` takes all
/// further words as the arguments of the target, `break` takes the next word
/// as the location, and the other commands take none and ignore the rest.
pub open spec fn is_command_of(command: Option<DebuggerCommand>, tokens: Seq<Seq<char>>) -> bool {
    if tokens.len() == 0 {
        command.is_none()
    } else {
        match verb_named(tokens[0]) {
            Some(Verb::Quit) => command == Some(DebuggerCommand::Quit),
            Some(Verb::Run) => command matches Some(DebuggerCommand::Run(args)) && texts(args@)
                == tokens.skip(1),
            Some(Verb::Continue) => command == Some(DebuggerCommand::Continue),
            Some(Verb::Backtrace) => command == Some(DebuggerCommand::Backtrace),
            Some(Verb::Break) => if tokens.len() >= 2 {
                command matches Some(DebuggerCommand::BreakPoint(location)) && location@
                    == tokens[1]
            } else {
                command.is_none()
            },
            None => command.is_none(),
        }
    }
}

/// Whether `word` is the text `name`.
fn is_word(word: &String, name: &str) -> (same: bool)
    ensures
        same == (word@ == name@),
{
    let name: String = name.to_owned();
    *word == name
}

/// The verb that `word` names.
pub fn verb_of(word: &String) -> (verb: Option<Verb>)
    ensures
        verb == verb_named(word@),
{
    if is_word(word, "q") || is_word(word, "quit") {
        Some(Verb::Quit)
    } else if is_word(word, "r") || is_word(word, "run") {
        Some(Verb::Run)
    } else if is_word(word, "c") || is_word(word, "cont") || is_word(word, "continue") {
        Some(Verb::Continue)
    } else if is_word(word, "bt") || is_word(word, "back") || is_word(word, "backtrace") {
        Some(Verb::Backtrace)
    } else if is_word(word, "b") || is_word(word, "break") {
        Some(Verb::Break)
    } else {
        None
    }
}

impl DebuggerCommand {
    /// Reads a command from the words of one input line. `None` if there is
    /// no word, if the first word names no command, or if `break` comes
    /// without a location.
    pub fn from_tokens(tokens: &Vec<String>) -> (command: Option<DebuggerCommand>)
        ensures
            is_command_of(command, texts(tokens@)),
    {
        if tokens.len() == 0 {
            return None;
        }
        proof {
            assert(texts(tokens@)[0] == tokens@[0]@);
        }
        match verb_of(&tokens[0]) {
            Some(Verb::Quit) => Some(DebuggerCommand::Quit),
            Some(Verb::Run) => {
                let mut args: Vec<String> = Vec::new();
                let mut i: usize = 1;
                while i < tokens.len()
                    invariant
                        1 <= i <= tokens.len(),
                        args@.len() == i - 1,
                        forall|k: int| 0 <= k < args@.len() ==> (#[trigger] args@[k])@ == tokens@[k
                            + 1]@,
                    decreases tokens.len() - i,
                {
                    args.push(tokens[i].clone());
                    i += 1;
                }
                proof {
                    assert(texts(args@) =~= texts(tokens@).skip(1));
                }
                Some(DebuggerCommand::Run(args))
            },
            Some(Verb::Continue) => Some(DebuggerCommand::Continue),
            Some(Verb::Backtrace) => Some(DebuggerCommand::Backtrace),
            Some(Verb::Break) => {
                if tokens.len() >= 2 {
                    proof {
                        assert(texts(tokens@)[1] == tokens@[1]@);
                    }
                    Some(DebuggerCommand::BreakPoint(tokens[1].clone()))
                } else {
                    None
                }
            },
            None => None,
        }
    }
}

} // verus!
