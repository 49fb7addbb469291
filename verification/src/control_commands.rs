//! Parsed commands of a control-mode line.
use crate::error::{ErrorModel, RmuxError};
use crate::text;
use vstd::prelude::*;

verus! {

/// How many arguments a command may have.
pub const CONTROL_COMMAND_MAX_ARGUMENTS: usize = 1000;

/// An argument: a word, or commands in braces.
#[derive(Debug, PartialEq, Eq)]
pub enum CommandArgument {
    String(String),
    Commands(Vec<ParsedCommand>),
}

/// A command with its arguments.
#[derive(Debug, PartialEq, Eq)]
pub struct ParsedCommand {
    pub name: String,
    pub arguments: Vec<CommandArgument>,
}

/// How many arguments the first command in reading order has that has too many,
/// nested commands included.
pub open spec fn commands_excess(commands: Seq<ParsedCommand>) -> Option<nat>
    decreases commands,
{
    if commands.len() == 0 {
        None
    } else {
        match command_excess(commands[0]) {
            Some(count) => Some(count),
            None => commands_excess(commands.subrange(1, commands.len() as int)),
        }
    }
}

/// The same of one command.
pub open spec fn command_excess(command: ParsedCommand) -> Option<nat>
    decreases command,
{
    if command.arguments@.len() > CONTROL_COMMAND_MAX_ARGUMENTS {
        Some(command.arguments@.len())
    } else {
        arguments_excess(command.arguments@)
    }
}

/// The same of the commands among arguments.
pub open spec fn arguments_excess(arguments: Seq<CommandArgument>) -> Option<nat>
    decreases arguments,
{
    if arguments.len() == 0 {
        None
    } else {
        let first = match arguments[0] {
            CommandArgument::Commands(nested) => commands_excess(nested@),
            CommandArgument::String(_) => None,
        };
        match first {
            Some(count) => Some(count),
            None => arguments_excess(arguments.subrange(1, arguments.len() as int)),
        }
    }
}

/// The refusal of a command with `count` arguments.
pub open spec fn too_many_arguments(count: nat) -> ErrorModel {
    ErrorModel::Server(
        "too many arguments: "@ + text::decimal(count) + " (maximum 1000)"@,
    )
}

/// Refuses commands of which one, at any depth, has too many arguments.
pub fn validate_control_command_arguments(commands: Vec<ParsedCommand>) -> (result: Result<
    Vec<ParsedCommand>,
    RmuxError,
>)
    ensures
        match result {
            Ok(valid) => valid@ == commands@ && commands_excess(commands@) is None,
            Err(error) => commands_excess(commands@) matches Some(count) && error@
                == too_many_arguments(count),
        },
{
    match validate_control_commands(&commands) {
        Ok(()) => Ok(commands),
        Err(error) => Err(error),
    }
}

fn validate_control_commands(commands: &Vec<ParsedCommand>) -> (result: Result<(), RmuxError>)
    ensures
        match result {
            Ok(()) => commands_excess(commands@) is None,
            Err(error) => commands_excess(commands@) matches Some(count) && error@
                == too_many_arguments(count),
        },
    decreases commands,
{
    let mut i: usize = 0;
    assert(commands@.subrange(0, commands@.len() as int) =~= commands@);
    while i < commands.len()
        invariant
            i <= commands@.len(),
            commands_excess(commands@) == commands_excess(
                commands@.subrange(i as int, commands@.len() as int),
            ),
        decreases commands.len() - i,
    {
        let ghost rest = commands@.subrange(i as int, commands@.len() as int);
        assert(rest[0] == commands@[i as int]);
        match validate_control_command(&commands[i]) {
            Ok(()) => {},
            Err(error) => {
                return Err(error);
            },
        }
        assert(rest.subrange(1, rest.len() as int) =~= commands@.subrange(
            i + 1,
            commands@.len() as int,
        ));
        i = i + 1;
    }
    Ok(())
}

fn validate_control_command(command: &ParsedCommand) -> (result: Result<(), RmuxError>)
    ensures
        match result {
            Ok(()) => command_excess(*command) is None,
            Err(error) => command_excess(*command) matches Some(count) && error@
                == too_many_arguments(count),
        },
    decreases command,
{
    let count: usize = command.arguments.len();
    if count > CONTROL_COMMAND_MAX_ARGUMENTS {
        let mut message = "too many arguments: ".to_owned();
        text::push_decimal(&mut message, count as u64);
        message.append(" (maximum 1000)");
        return Err(RmuxError::Server(message));
    }
    let ghost arguments = command.arguments@;
    let mut i: usize = 0;
    assert(arguments.subrange(0, arguments.len() as int) =~= arguments);
    while i < command.arguments.len()
        invariant
            i <= arguments.len(),
            arguments == command.arguments@,
            command_excess(*command) == arguments_excess(arguments),
            arguments_excess(arguments) == arguments_excess(
                arguments.subrange(i as int, arguments.len() as int),
            ),
        decreases command.arguments.len() - i,
    {
        let ghost rest = arguments.subrange(i as int, arguments.len() as int);
        assert(rest[0] == arguments[i as int]);
        match &command.arguments[i] {
            CommandArgument::Commands(nested) => {
                assert(decreases_to!(command => command.arguments));
                assert(decreases_to!(command.arguments => command.arguments@[i as int]));
                match validate_control_commands(nested) {
                    Ok(()) => {},
                    Err(error) => {
                        return Err(error);
                    },
                }
            },
            CommandArgument::String(_) => {},
        }
        assert(rest.subrange(1, rest.len() as int) =~= arguments.subrange(
            i + 1,
            arguments.len() as int,
        ));
        i = i + 1;
    }
    Ok(())
}

/// Whether a `wait-for` with these arguments waits, rather than signals. The
/// first option that says so decides; without one it waits.
pub open spec fn wait_for_blocks(arguments: Seq<CommandArgument>) -> bool
    decreases arguments.len(),
{
    if arguments.len() == 0 {
        true
    } else {
        let rest = arguments.subrange(1, arguments.len() as int);
        match arguments[0] {
            CommandArgument::Commands(_) => wait_for_blocks(rest),
            CommandArgument::String(word) => if word@ == "--"@ {
                true
            } else if word@.len() < 2 || word@[0] != '-' {
                wait_for_blocks(rest)
            } else if option_letters(word@).contains('S') || option_letters(word@).contains('U') {
                false
            } else if option_letters(word@).contains('L') {
                true
            } else {
                wait_for_blocks(rest)
            },
        }
    }
}

/// The letters of an option word.
pub open spec fn option_letters(word: Seq<char>) -> Seq<char> {
    word.subrange(1, word.len() as int)
}

/// Some command, at any depth, is a `wait-for` that waits.
pub open spec fn commands_block(commands: Seq<ParsedCommand>) -> bool
    decreases commands,
{
    commands.len() > 0 && (command_blocks(commands[0]) || commands_block(
        commands.subrange(1, commands.len() as int),
    ))
}

/// The command, or one among its arguments, is a `wait-for` that waits.
pub open spec fn command_blocks(command: ParsedCommand) -> bool
    decreases command,
{
    (command.name@ == "wait-for"@ && wait_for_blocks(command.arguments@)) || arguments_block(
        command.arguments@,
    )
}

/// A command among the arguments is a `wait-for` that waits.
pub open spec fn arguments_block(arguments: Seq<CommandArgument>) -> bool
    decreases arguments,
{
    arguments.len() > 0 && ((arguments[0] matches CommandArgument::Commands(nested)
        && commands_block(nested@)) || arguments_block(
        arguments.subrange(1, arguments.len() as int),
    ))
}

/// Whether the commands are to be cancelled when the client's input ends: they
/// may wait for a signal that never comes.
pub fn control_commands_abort_on_eof(commands: &Vec<ParsedCommand>) -> (aborts: bool)
    ensures
        aborts == commands_block(commands@),
    decreases commands,
{
    let mut i: usize = 0;
    assert(commands@.subrange(0, commands@.len() as int) =~= commands@);
    while i < commands.len()
        invariant
            i <= commands@.len(),
            commands_block(commands@) == commands_block(
                commands@.subrange(i as int, commands@.len() as int),
            ),
        decreases commands.len() - i,
    {
        let ghost rest = commands@.subrange(i as int, commands@.len() as int);
        assert(rest[0] == commands@[i as int]);
        if command_aborts_on_eof(&commands[i]) {
            return true;
        }
        assert(rest.subrange(1, rest.len() as int) =~= commands@.subrange(
            i + 1,
            commands@.len() as int,
        ));
        i = i + 1;
    }
    false
}

fn command_aborts_on_eof(command: &ParsedCommand) -> (aborts: bool)
    ensures
        aborts == command_blocks(*command),
    decreases command,
{
    if wait_for_command_aborts_on_eof(command) {
        return true;
    }
    let ghost arguments = command.arguments@;
    let mut i: usize = 0;
    assert(arguments.subrange(0, arguments.len() as int) =~= arguments);
    while i < command.arguments.len()
        invariant
            i <= arguments.len(),
            arguments == command.arguments@,
            command_blocks(*command) == arguments_block(arguments),
            arguments_block(arguments) == arguments_block(
                arguments.subrange(i as int, arguments.len() as int),
            ),
        decreases command.arguments.len() - i,
    {
        let ghost rest = arguments.subrange(i as int, arguments.len() as int);
        assert(rest[0] == arguments[i as int]);
        match &command.arguments[i] {
            CommandArgument::Commands(nested) => {
                assert(decreases_to!(command => command.arguments));
                assert(decreases_to!(command.arguments => command.arguments@[i as int]));
                if control_commands_abort_on_eof(nested) {
                    return true;
                }
            },
            CommandArgument::String(_) => {},
        }
        assert(rest.subrange(1, rest.len() as int) =~= arguments.subrange(
            i + 1,
            arguments.len() as int,
        ));
        i = i + 1;
    }
    false
}

fn letters_contain(word: &str, letter: char) -> (contains: bool)
    requires
        word@.len() >= 1,
    ensures
        contains == option_letters(word@).contains(letter),
{
    let len: usize = word.unicode_len();
    let mut i: usize = 1;
    while i < len
        invariant
            1 <= i <= len,
            len == word@.len(),
            forall|k: int| 1 <= k < i ==> word@[k] != letter,
        decreases len - i,
    {
        if word.get_char(i) == letter {
            assert(option_letters(word@)[i - 1] == letter);
            return true;
        }
        i = i + 1;
    }
    assert forall|k: int| 0 <= k < option_letters(word@).len() implies option_letters(word@)[k]
        != letter by {
        assert(option_letters(word@)[k] == word@[k + 1]);
    }
    false
}

/// Whether the command is a `wait-for` that waits.
pub fn wait_for_command_aborts_on_eof(command: &ParsedCommand) -> (aborts: bool)
    ensures
        aborts == (command.name@ == "wait-for"@ && wait_for_blocks(command.arguments@)),
{
    if !text::same_text(command.name.as_str(), "wait-for") {
        return false;
    }
    let ghost arguments = command.arguments@;
    let mut i: usize = 0;
    assert(arguments.subrange(0, arguments.len() as int) =~= arguments);
    while i < command.arguments.len()
        invariant
            i <= arguments.len(),
            arguments == command.arguments@,
            wait_for_blocks(arguments) == wait_for_blocks(
                arguments.subrange(i as int, arguments.len() as int),
            ),
            command.name@ == "wait-for"@,
        decreases command.arguments.len() - i,
    {
        let ghost rest = arguments.subrange(i as int, arguments.len() as int);
        assert(rest[0] == arguments[i as int]);
        assert(rest.subrange(1, rest.len() as int) =~= arguments.subrange(
            i + 1,
            arguments.len() as int,
        ));
        match &command.arguments[i] {
            CommandArgument::Commands(_) => {},
            CommandArgument::String(word) => {
                let word = word.as_str();
                if text::same_text(word, "--") {
                    return true;
                }
                if word.unicode_len() >= 2 && word.get_char(0) == '-' {
                    if letters_contain(word, 'S') || letters_contain(word, 'U') {
                        return false;
                    }
                    if letters_contain(word, 'L') {
                        return true;
                    }
                }
            },
        }
        i = i + 1;
    }
    true
}

/// A command without nested ones is refused exactly where it has more than a thousand
/// arguments.
pub proof fn a_thousand_arguments_are_allowed(command: ParsedCommand)
    requires
        forall|i: int|
            0 <= i < command.arguments@.len() ==> (#[trigger] command.arguments@[i]) is String,
    ensures
        command_excess(command) == if command.arguments@.len() > 1000 {
            Some(command.arguments@.len())
        } else {
            None::<nat>
        },
{
    lemma_words_have_no_excess(command.arguments@);
}

proof fn lemma_words_have_no_excess(arguments: Seq<CommandArgument>)
    requires
        forall|i: int| 0 <= i < arguments.len() ==> (#[trigger] arguments[i]) is String,
    ensures
        arguments_excess(arguments) is None,
        !arguments_block(arguments),
    decreases arguments.len(),
{
    if arguments.len() > 0 {
        let rest = arguments.subrange(1, arguments.len() as int);
        assert forall|i: int| 0 <= i < rest.len() implies (#[trigger] rest[i]) is String by {
            assert(rest[i] == arguments[i + 1]);
        }
        assert(arguments[0] is String);
        lemma_words_have_no_excess(rest);
    }
}

/// Commands in braces are counted like any other: the first command in reading order
/// with too many arguments is the one that is refused, at whatever depth it stands.
pub proof fn nested_commands_are_counted_too(
    first: ParsedCommand,
    rest: Seq<ParsedCommand>,
    nested: Vec<ParsedCommand>,
    arguments: Seq<CommandArgument>,
)
    ensures
        commands_excess(seq![first] + rest) == match command_excess(first) {
            Some(count) => Some(count),
            None => commands_excess(rest),
        },
        arguments_excess(seq![CommandArgument::Commands(nested)] + arguments)
            == match commands_excess(nested@) {
            Some(count) => Some(count),
            None => arguments_excess(arguments),
        },
        first.arguments@.len() > 1000 ==> command_excess(first) == Some(first.arguments@.len()),
        first.arguments@.len() <= 1000 ==> command_excess(first) == arguments_excess(
            first.arguments@,
        ),
        commands_block(seq![first] + rest) == (command_blocks(first) || commands_block(rest)),
        arguments_block(seq![CommandArgument::Commands(nested)] + arguments) == (commands_block(
            nested@,
        ) || arguments_block(arguments)),
{
    let commands = seq![first] + rest;
    assert(commands[0] == first);
    assert(commands.subrange(1, commands.len() as int) =~= rest);
    let all = seq![CommandArgument::Commands(nested)] + arguments;
    assert(all[0] == CommandArgument::Commands(nested));
    assert(all.subrange(1, all.len() as int) =~= arguments);
}

/// What is refused is refused with its count of arguments and the limit; what is not is
/// handed back as it is.
pub proof fn an_excess_is_refused_by_its_count(
    commands: Vec<ParsedCommand>,
    result: Result<Vec<ParsedCommand>, RmuxError>,
)
    requires
        call_ensures(validate_control_command_arguments, (commands,), result),
        commands@.len() == 1,
        commands@[0].arguments@.len() > 1000,
    ensures
        result matches Err(error) && error@ == ErrorModel::Server(
            "too many arguments: "@ + text::decimal(commands@[0].arguments@.len())
                + " (maximum 1000)"@,
        ),
{
    assert(command_excess(commands@[0]) == Some(commands@[0].arguments@.len()));
    assert(commands_excess(commands@) == command_excess(commands@[0]));
}

/// A `wait-for` waits unless it signals or unlocks: what its first option with one of
/// the letters says counts, and without one it waits. Words that are no options are
/// passed, and two dashes end the options.
pub proof fn a_wait_waits_unless_it_signals(
    word: String,
    rest: Seq<CommandArgument>,
    nested: Vec<ParsedCommand>,
)
    ensures
        wait_for_blocks(seq![]),
        word@ == seq!['-', 'S'] ==> !wait_for_blocks(seq![CommandArgument::String(word)] + rest),
        word@ == seq!['-', 'U'] ==> !wait_for_blocks(seq![CommandArgument::String(word)] + rest),
        word@ == seq!['-', 'L'] ==> wait_for_blocks(seq![CommandArgument::String(word)] + rest),
        word@ == seq!['-', '-'] ==> wait_for_blocks(seq![CommandArgument::String(word)] + rest),
        word@.len() < 2 || word@[0] != '-' ==> wait_for_blocks(
            seq![CommandArgument::String(word)] + rest,
        ) == wait_for_blocks(rest),
        wait_for_blocks(seq![CommandArgument::Commands(nested)] + rest) == wait_for_blocks(rest),
{
    reveal_strlit("--");
    let all = seq![CommandArgument::String(word)] + rest;
    assert(all[0] == CommandArgument::String(word));
    assert(all.subrange(1, all.len() as int) =~= rest);
    assert("--"@ =~= seq!['-', '-']);
    if word@ == seq!['-', 'S'] || word@ == seq!['-', 'U'] || word@ == seq!['-', 'L'] {
        let letters = option_letters(word@);
        assert(letters[0] == word@[1] && letters.len() == 1);
        assert(word@ != "--"@) by {
            assert("--"@[1] == '-');
        }
        assert(letters.contains(word@[1]));
    }
    let other = seq![CommandArgument::Commands(nested)] + rest;
    assert(other[0] == CommandArgument::Commands(nested));
    assert(other.subrange(1, other.len() as int) =~= rest);
}

/// Only `wait-for` is cancelled at the end of input, and only where it waits; a command
/// that holds one in braces is too.
pub proof fn only_waiting_is_cancelled(command: ParsedCommand, aborts: bool)
    requires
        call_ensures(wait_for_command_aborts_on_eof, (&command,), aborts),
        forall|i: int|
            0 <= i < command.arguments@.len() ==> (#[trigger] command.arguments@[i]) is String,
    ensures
        command.name@ != "wait-for"@ ==> !aborts && !command_blocks(command),
        command.name@ == "wait-for"@ && command.arguments@.len() == 0 ==> aborts && command_blocks(
            command,
        ),
        command_blocks(command) == aborts,
{
    lemma_words_have_no_excess(command.arguments@);
}

} // verus!
