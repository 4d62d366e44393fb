//! What callers can count on, call by call: how results relate to what was passed in.

use crate::bytes;
use crate::command;
use crate::command::{Command, Host};
use crate::context;
use crate::context::{Context, ContextView};
use crate::prepare;
use crate::prepare::{Prepare, Stdio};
use crate::shell;
use vstd::prelude::*;
use vstd::utf8::*;

verus! {

/// Whether `byte` is one of the ASCII characters of `set`.
pub open spec fn one_of(byte: u8, set: &str) -> bool {
    set@.contains(byte as char)
}

/// Whether there is a `$@` in `line`.
pub open spec fn has_dollar_at(line: Seq<u8>) -> bool {
    exists|i: int|
        0 <= i < line.len() - 1 && #[trigger] line[i] == '$' as u8 && line[i + 1] == '@' as u8
}

/// Whether `prep` is run by a shell: it asks for one, and its command isn't split by hand, be it that
/// this isn't allowed, that the command is not UTF-8 or holds scripting, or that a quote is left open.
pub open spec fn is_left_to_the_shell(prep: Prepare) -> bool {
    &&& prep.use_shell
    &&& {
        ||| !prep.allow_manual_arg_splitting
        ||| !valid_utf8(prep.command@)
        ||| exists|i: int|
            0 <= i < prep.command@.len() && one_of(
                #[trigger] prep.command@[i],
                "\\|&;<>()$`\n*?[#~%",
            )
        ||| shell::shell_words_of(decode_utf8(prep.command@)) is None
    }
}

/// Whether the command of `prep` is split by hand.
pub open spec fn is_split(prep: Prepare) -> bool {
    prep.use_shell && !is_left_to_the_shell(prep)
}

/// The bytes that are shell syntax.
proof fn lemma_shell_syntax(byte: u8)
    ensures
        shell::is_shell_syntax(byte) <==> one_of(byte, "|&;<>()$`\\\"' \t\n*?[#~=%"),
{
    reveal_strlit("|&;<>()$`\\\"' \t\n*?[#~=%");
    let set = "|&;<>()$`\\\"' \t\n*?[#~=%"@;
    assert(set[0] == '|' && set[1] == '&' && set[2] == ';' && set[3] == '<' && set[4] == '>');
    assert(set[5] == '(' && set[6] == ')' && set[7] == '$' && set[8] == '`' && set[9] == '\\');
    assert(set[10] == '"' && set[11] == '\'' && set[12] == ' ' && set[13] == '\t');
    assert(set[14] == '\n' && set[15] == '*' && set[16] == '?' && set[17] == '[');
    assert(set[18] == '#' && set[19] == '~' && set[20] == '=' && set[21] == '%');
}

/// The bytes that are scripting.
proof fn lemma_scripting(byte: u8)
    ensures
        shell::is_scripting(byte) <==> one_of(byte, "\\|&;<>()$`\n*?[#~%"),
{
    reveal_strlit("\\|&;<>()$`\n*?[#~%");
    let set = "\\|&;<>()$`\n*?[#~%"@;
    assert(set[0] == '\\' && set[1] == '|' && set[2] == '&' && set[3] == ';' && set[4] == '<');
    assert(set[5] == '>' && set[6] == '(' && set[7] == ')' && set[8] == '$' && set[9] == '`');
    assert(set[10] == '\n' && set[11] == '*' && set[12] == '?' && set[13] == '[');
    assert(set[14] == '#' && set[15] == '~' && set[16] == '%');
}

/// A command is split by hand if, and only if, nothing stands against it.
proof fn lemma_split(prep: Prepare)
    ensures
        is_left_to_the_shell(prep) ==> prepare::manual_words(prep@) is None,
        is_split(prep) ==> prepare::can_split(prep@) && prepare::manual_words(prep@)
            == shell::shell_words_of(decode_utf8(prep.command@)),
{
    assert forall|b: u8| #[trigger] shell::is_scripting(b) == one_of(b, "\\|&;<>()$`\n*?[#~%") by {
        lemma_scripting(b);
    }
    if exists|i: int|
        0 <= i < prep.command@.len() && one_of(#[trigger] prep.command@[i], "\\|&;<>()$`\n*?[#~%") {
        let i = choose|i: int|
            0 <= i < prep.command@.len() && one_of(
                #[trigger] prep.command@[i],
                "\\|&;<>()$`\n*?[#~%",
            );
        assert(shell::is_scripting(prep.command@[i]));
    }
    if is_split(prep) && shell::has_scripting(prep.command@) {
        let i = choose|i: int|
            0 <= i < prep.command@.len() && shell::is_scripting(#[trigger] prep.command@[i]);
        assert(one_of(prep.command@[i], "\\|&;<>()$`\n*?[#~%"));
    }
}

/// What is known of a list of byte strings is known of its items.
proof fn lemma_views(list: Seq<Vec<u8>>)
    ensures
        bytes::views(list).len() == list.len(),
        forall|i: int| 0 <= i < list.len() ==> bytes::views(list)[i] == #[trigger] list[i]@,
{
}

/// `$@` is found wherever it is.
proof fn lemma_dollar_at(line: Seq<u8>)
    ensures
        shell::mentions_arguments(line) <==> has_dollar_at(line),
{
    if has_dollar_at(line) {
        let i = choose|i: int|
            0 <= i < line.len() - 1 && #[trigger] line[i] == '$' as u8 && line[i + 1] == '@' as u8;
        assert(shell::is_dollar_at(line, i));
    }
    if shell::mentions_arguments(line) {
        let i = choose|i: int| #[trigger] shell::is_dollar_at(line, i);
        assert(line[i] == '$' as u8);
    }
}

/// A shell is run with `-c`, a script, `--` and then the arguments of the command, as they are and in
/// order. It is the one that was configured, or else that of the host.
pub proof fn shell_gets_a_script_and_all_arguments(prep: Prepare, host: Host, command: Command)
    requires
        call_ensures(Command::from, (prep, host), command),
        is_left_to_the_shell(prep),
    ensures
        command.program@ == (match prep.shell_program {
            Some(shell) => shell@,
            None => host.shell@,
        }),
        command.args@.len() == prep.args@.len() + 3,
        command.args@[0]@ == seq!['-' as u8, 'c' as u8],
        command.args@[2]@ == seq!['-' as u8, '-' as u8],
        forall|i: int|
            0 <= i < prep.args@.len() ==> command.args@[i + 3]@ == #[trigger] prep.args@[i]@,
{
    lemma_views(command.args@);
    lemma_views(prep.args@);
    lemma_split(prep);
    let args = command@.args;
    assert(args[0] == command.args@[0]@ && args[2] == command.args@[2]@);
    assert forall|i: int| 0 <= i < prep.args@.len() implies command.args@[i + 3]@
        == #[trigger] prep.args@[i]@ by {
        assert(args[i + 3] == prep@.args[i]);
        assert(prep@.args[i] == prep.args@[i]@);
    }
}

/// If quoting was not asked for, there are arguments, and the command does not mention `$@` already,
/// then the script is exactly the command followed by ` "$@"`, whatever the command is.
pub proof fn script_is_the_command_and_its_arguments(prep: Prepare, host: Host, command: Command)
    requires
        call_ensures(Command::from, (prep, host), command),
        is_left_to_the_shell(prep),
        !prep.quote_command,
        prep.args@.len() > 0,
        !(valid_utf8(prep.command@) && has_dollar_at(prep.command@)),
    ensures
        command.args@[1]@.len() == prep.command@.len() + 5,
        command.args@[1]@.take(prep.command@.len() as int) == prep.command@,
        command.args@[1]@.skip(prep.command@.len() as int) == seq![
            ' ' as u8,
            '"' as u8,
            '$' as u8,
            '@' as u8,
            '"' as u8,
        ],
{
    lemma_views(command.args@);
    lemma_views(prep.args@);
    lemma_split(prep);
    lemma_dollar_at(prep.command@);
    assert(command@.args[1] == command.args@[1]@);
    let script = command.args@[1]@;
    assert(script.take(prep.command@.len() as int) =~= prep.command@);
    assert(script.skip(prep.command@.len() as int) =~= seq![
        ' ' as u8,
        '"' as u8,
        '$' as u8,
        '@' as u8,
        '"' as u8,
    ]);
}

/// The script is the command, byte by byte, if there are no arguments to pass on and it is not to be
/// quoted, and also if it mentions its arguments by itself.
pub proof fn script_is_the_command(prep: Prepare, host: Host, command: Command)
    requires
        call_ensures(Command::from, (prep, host), command),
        is_left_to_the_shell(prep),
        if prep.args@.len() == 0 {
            !prep.quote_command
        } else {
            valid_utf8(prep.command@) && has_dollar_at(prep.command@)
        },
    ensures
        command.args@[1]@ == prep.command@,
{
    lemma_views(command.args@);
    lemma_views(prep.args@);
    lemma_split(prep);
    lemma_dollar_at(prep.command@);
    assert(command@.args[1] == command.args@[1]@);
}

/// If quoting was asked for, the script of a command without quotes and exclamation marks is that
/// command in single quotes, followed by ` "$@"` just if there are arguments.
pub proof fn script_is_the_quoted_command(prep: Prepare, host: Host, command: Command)
    requires
        call_ensures(Command::from, (prep, host), command),
        is_left_to_the_shell(prep),
        prep.quote_command,
        !host.windows || valid_utf8(prep.command@),
        prep.args@.len() > 0 ==> !(valid_utf8(prep.command@) && has_dollar_at(prep.command@)),
        forall|i: int|
            0 <= i < prep.command@.len() ==> !one_of(#[trigger] prep.command@[i], "'!"),
    ensures
        command.args@[1]@ == seq!['\'' as u8] + prep.command@ + seq!['\'' as u8] + (
        if prep.args@.len() > 0 {
            seq![' ' as u8, '"' as u8, '$' as u8, '@' as u8, '"' as u8]
        } else {
            seq![]
        }),
{
    lemma_views(command.args@);
    lemma_views(prep.args@);
    lemma_split(prep);
    lemma_dollar_at(prep.command@);
    lemma_escaped(prep.command@);
    assert(command@.args[1] == command.args@[1]@);
    let quoted = seq!['\'' as u8] + prep.command@ + seq!['\'' as u8];
    assert(quoted + Seq::<u8>::empty() =~= quoted);
}

/// What holds neither quotes nor exclamation marks is not escaped.
proof fn lemma_escaped(value: Seq<u8>)
    requires
        forall|i: int| 0 <= i < value.len() ==> !one_of(#[trigger] value[i], "'!"),
    ensures
        shell::escaped(value) == value,
    decreases value.len(),
{
    if value.len() > 0 {
        reveal_strlit("'!");
        assert("'!"@[0] == '\'' && "'!"@[1] == '!');
        assert(!one_of(value[0], "'!"));
        let rest = value.skip(1);
        assert forall|i: int| 0 <= i < rest.len() implies !one_of(#[trigger] rest[i], "'!") by {
            assert(rest[i] == value[i + 1]);
        }
        lemma_escaped(rest);
        assert(seq![value[0]] + rest =~= value);
    }
}

/// If quoting was asked for, a shell reads the whole command as the first word of the script, whatever
/// is in it, and finds nothing but ` "$@"` after it if there are arguments, or else nothing at all.
pub proof fn shell_reads_a_quoted_command_as_one_word(prep: Prepare, host: Host, command: Command)
    requires
        call_ensures(Command::from, (prep, host), command),
        is_left_to_the_shell(prep),
        prep.quote_command,
        !host.windows || valid_utf8(prep.command@),
        prep.args@.len() > 0 ==> !(valid_utf8(prep.command@) && has_dollar_at(prep.command@)),
    ensures
        shell::read_word(command.args@[1]@, false) == Some(
            (
                prep.command@,
                if prep.args@.len() > 0 {
                    seq![' ' as u8, '"' as u8, '$' as u8, '@' as u8, '"' as u8]
                } else {
                    seq![]
                },
            ),
        ),
{
    lemma_views(command.args@);
    lemma_views(prep.args@);
    lemma_split(prep);
    lemma_dollar_at(prep.command@);
    crate::laws::quoted_command_is_left_intact(prep@, host.windows);
    assert(command@.args[1] == command.args@[1]@);
}

/// On Windows, a command that is not UTF-8 can't be quoted, and is run as if that hadn't been asked for.
pub proof fn ill_formed_command_is_not_quoted_on_windows(
    prep: Prepare,
    host: Host,
    command: Command,
)
    requires
        call_ensures(Command::from, (prep, host), command),
        prep.use_shell,
        host.windows,
        !valid_utf8(prep.command@),
    ensures
        command.args@[1]@ == prep.command@ + (if prep.args@.len() > 0 {
            seq![' ' as u8, '"' as u8, '$' as u8, '@' as u8, '"' as u8]
        } else {
            seq![]
        }),
{
    lemma_views(command.args@);
    lemma_views(prep.args@);
    lemma_split(prep);
    assert(command@.args[1] == command.args@[1]@);
    assert(prep.command@ + Seq::<u8>::empty() =~= prep.command@);
}

/// A command that is split by hand is run without a shell. The program and the arguments that come
/// before those of the caller are all the words of the command, as many and in the same order.
pub proof fn split_command_keeps_all_words(
    prep: Prepare,
    host: Host,
    command: Command,
    words: Seq<Seq<char>>,
)
    requires
        call_ensures(Command::from, (prep, host), command),
        is_split(prep),
        shell::shell_words_of(decode_utf8(prep.command@)) == Some(words),
        words.len() > 0,
    ensures
        command.args@.len() == words.len() - 1 + prep.args@.len(),
        command.program@ == encode_utf8(words[0]),
        forall|i: int|
            1 <= i < words.len() ==> command.args@[i - 1]@ == encode_utf8(#[trigger] words[i]),
        forall|i: int|
            0 <= i < prep.args@.len() ==> command.args@[words.len() - 1 + i]@
                == #[trigger] prep.args@[i]@,
{
    lemma_views(command.args@);
    lemma_views(prep.args@);
    lemma_split(prep);
    lemma_words_are_run(prep, host, command, words);
}

/// The words of a command are its program and first arguments.
proof fn lemma_words_are_run(
    prep: Prepare,
    host: Host,
    command: Command,
    words: Seq<Seq<char>>,
)
    requires
        prep.use_shell,
        words.len() > 0,
        command@ == command::command_from(prep@, host@, Some(words)),
    ensures
        command.args@.len() == words.len() - 1 + prep.args@.len(),
        command.program@ == encode_utf8(words[0]),
        forall|i: int|
            1 <= i < words.len() ==> command.args@[i - 1]@ == encode_utf8(#[trigger] words[i]),
        forall|i: int|
            0 <= i < prep.args@.len() ==> command.args@[words.len() - 1 + i]@
                == #[trigger] prep.args@[i]@,
{
    let args = command@.args;
    assert(args.len() == command.args@.len());
    assert forall|i: int| 1 <= i < words.len() implies command.args@[i - 1]@ == encode_utf8(
        #[trigger] words[i],
    ) by {
        assert(words.skip(1)[i - 1] == words[i]);
        assert(args[i - 1] == command.args@[i - 1]@);
    }
    assert forall|i: int| 0 <= i < prep.args@.len() implies command.args@[words.len() - 1 + i]@
        == #[trigger] prep.args@[i]@ by {
        assert(args[words.len() - 1 + i] == prep@.args[i]);
        assert(args[words.len() - 1 + i] == command.args@[words.len() - 1 + i]@);
    }
}

/// A command of plain words with a space between each two of them, which is split by hand, runs the
/// first word with all others as arguments: with spaces in between, they give the command back.
pub proof fn plain_words_are_program_and_arguments(
    prep: Prepare,
    host: Host,
    command: Command,
    words: Seq<Seq<char>>,
)
    requires
        call_ensures(Command::from, (prep, host), command),
        prep.use_shell,
        prep.allow_manual_arg_splitting,
        words.len() > 0,
        forall|i: int| 0 <= i < words.len() ==> shell::is_plain_word(#[trigger] words[i]),
        prep.command@ == encode_utf8(shell::spaced(words)),
        forall|i: int|
            0 <= i < prep.command@.len() ==> !one_of(
                #[trigger] prep.command@[i],
                "\\|&;<>()$`\n*?[#~%",
            ),
    ensures
        command.args@.len() == words.len() - 1 + prep.args@.len(),
        command.program@ == encode_utf8(words[0]),
        forall|i: int|
            1 <= i < words.len() ==> command.args@[i - 1]@ == encode_utf8(#[trigger] words[i]),
        forall|i: int|
            0 <= i < prep.args@.len() ==> command.args@[words.len() - 1 + i]@
                == #[trigger] prep.args@[i]@,
{
    encode_utf8_decode_utf8(shell::spaced(words));
    encode_utf8_valid_utf8(shell::spaced(words));
    assert forall|b: u8| #[trigger] shell::is_scripting(b) == one_of(b, "\\|&;<>()$`\n*?[#~%") by {
        lemma_scripting(b);
    }
    assert(shell::is_line_of(decode_utf8(prep@.command), words));
    lemma_words_are_run(prep, host, command, words);
}

/// A command that doesn't ask for a shell is the program to run, with its arguments as they are and in
/// order, unless it has to be run by an interpreter on Windows.
pub proof fn direct_command_is_the_program(prep: Prepare, host: Host, command: Command)
    requires
        call_ensures(Command::from, (prep, host), command),
        !prep.use_shell,
        !host.windows || host.script is None,
    ensures
        command.program@ == prep.command@,
        command.args@.len() == prep.args@.len(),
        forall|i: int|
            0 <= i < prep.args@.len() ==> command.args@[i]@ == #[trigger] prep.args@[i]@,
{
    assert forall|i: int| 0 <= i < prep.args@.len() implies command.args@[i]@
        == #[trigger] prep.args@[i]@ by {
        assert(command@.args[i] == prep@.args[i]);
        assert(command@.args[i] == command.args@[i]@);
    }
    assert(command@.args.len() == command.args@.len());
}

/// A script on Windows is run by its interpreter, which gets all options of the shebang if the path to
/// the script is absolute and none otherwise, then the command, and then its arguments.
pub proof fn script_is_run_by_its_interpreter(prep: Prepare, host: Host, command: Command)
    requires
        call_ensures(Command::from, (prep, host), command),
        !prep.use_shell,
        host.windows,
        host.script is Some,
    ensures
        ({
            let script = host.script->0;
            let count = if script.absolute {
                script.shebang.args@.len() as int
            } else {
                0
            };
            &&& command.program@ == script.shebang.interpreter@
            &&& command.args@.len() == count + 1 + prep.args@.len()
            &&& forall|i: int|
                0 <= i < count ==> command.args@[i]@ == #[trigger] script.shebang.args@[i]@
            &&& command.args@[count]@ == prep.command@
            &&& forall|i: int|
                0 <= i < prep.args@.len() ==> command.args@[count + 1 + i]@
                    == #[trigger] prep.args@[i]@
        }),
{
    let script = host.script->0;
    let count = if script.absolute {
        script.shebang.args@.len() as int
    } else {
        0
    };
    let args = command@.args;
    assert(args.len() == command.args@.len());
    assert(args[count] == command.args@[count]@);
    assert forall|i: int| 0 <= i < count implies command.args@[i]@
        == #[trigger] script.shebang.args@[i]@ by {
        assert(args[i] == script@.shebang.args[i]);
        assert(args[i] == command.args@[i]@);
    }
    assert forall|i: int| 0 <= i < prep.args@.len() implies command.args@[count + 1 + i]@
        == #[trigger] prep.args@[i]@ by {
        assert(args[count + 1 + i] == prep@.args[i]);
        assert(args[count + 1 + i] == command.args@[count + 1 + i]@);
    }
}

/// The standard streams are those of the command, but for standard error if the context has a say in
/// it. On Windows the process is told not to open a window.
pub proof fn streams_are_passed_on(prep: Prepare, host: Host, command: Command)
    requires
        call_ensures(Command::from, (prep, host), command),
    ensures
        command.stdin == prep.stdin,
        command.stdout == prep.stdout,
        prep.context is None ==> command.stderr == prep.stderr,
        prep.context matches Some(context) ==> command.stderr == (match context.stderr {
            Some(inherit) => if inherit {
                Stdio::Inherit
            } else {
                Stdio::Null
            },
            None => prep.stderr,
        }),
        command.creation_flags == (if host.windows {
            0x0800_0000u32
        } else {
            0u32
        }),
{
    assert(command@.stdin == prep@.stdin);
}

/// Words that are given are run instead of the command if that asks for a shell, as many and in the
/// same order, and followed by the arguments.
pub proof fn given_words_are_all_run(
    prep: Prepare,
    host: Host,
    words: Option<Vec<String>>,
    command: Command,
)
    requires
        call_ensures(Command::from_words, (prep, host, words), command),
        prep.use_shell,
        words matches Some(words) && words@.len() > 0,
    ensures
        command.args@.len() == words->0@.len() - 1 + prep.args@.len(),
        command.program@ == encode_utf8(words->0@[0]@),
        forall|i: int|
            1 <= i < words->0@.len() ==> command.args@[i - 1]@ == encode_utf8(
                #[trigger] words->0@[i]@,
            ),
        forall|i: int|
            0 <= i < prep.args@.len() ==> command.args@[words->0@.len() - 1 + i]@
                == #[trigger] prep.args@[i]@,
{
    let all = bytes::word_views(words->0@);
    assert(all.len() == words->0@.len());
    assert(all[0] == words->0@[0]@);
    lemma_words_are_run(prep, host, command, all);
    assert forall|i: int| 1 <= i < words->0@.len() implies command.args@[i - 1]@ == encode_utf8(
        #[trigger] words->0@[i]@,
    ) by {
        assert(all[i] == words->0@[i]@);
    }
}

/// A command is run with the words that it splits into, or by its shell if it doesn't.
pub proof fn command_is_run_with_its_own_words(
    prep: Prepare,
    host: Host,
    words: Option<Vec<String>>,
    split: Command,
    command: Command,
)
    requires
        call_ensures(Prepare::split_command, (&prep,), words),
        call_ensures(Command::from_words, (prep, host, words), split),
        call_ensures(Command::from, (prep, host), command),
    ensures
        command@ == split@,
{
}

/// A command is split by hand if it asks for a shell, may be split, is UTF-8, holds no scripting and
/// leaves no quote open, and then all its words are returned. Otherwise nothing is.
pub proof fn command_is_split_into_all_words(prep: Prepare, words: Option<Vec<String>>)
    requires
        call_ensures(Prepare::split_command, (&prep,), words),
    ensures
        words is Some <==> is_split(prep),
        words matches Some(words) ==> {
            let all = shell::shell_words_of(decode_utf8(prep.command@))->0;
            &&& words@.len() == all.len()
            &&& forall|i: int| 0 <= i < all.len() ==> #[trigger] words@[i]@ == all[i]
        },
{
    lemma_split(prep);
    if let Some(words) = words {
        let all = bytes::word_views(words@);
        assert(all.len() == words@.len());
        assert forall|i: int| 0 <= i < all.len() implies #[trigger] words@[i]@ == all[i] by {}
    }
}

/// There is a program to run unless a command that is to be split by hand holds nothing but blanks. On
/// Windows, a command that may be split and the namespace of the context have to be UTF-8 as well.
pub proof fn runnable_commands_have_a_program(prep: Prepare, windows: bool, runnable: bool)
    requires
        call_ensures(Prepare::is_runnable, (&prep, windows), runnable),
    ensures
        runnable <==> {
            &&& prep.use_shell && prep.allow_manual_arg_splitting && valid_utf8(prep.command@)
                && !(exists|i: int|
                0 <= i < prep.command@.len() && one_of(
                    #[trigger] prep.command@[i],
                    "\\|&;<>()$`\n*?[#~%",
                )) ==> exists|i: int|
                0 <= i < prep.command@.len() && !one_of(#[trigger] prep.command@[i], " \t")
            &&& windows && prep.use_shell && prep.allow_manual_arg_splitting ==> valid_utf8(
                prep.command@,
            )
            &&& windows ==> (prep.context matches Some(context) ==> (
            context.ref_namespace matches Some(namespace) ==> valid_utf8(namespace@)))
        },
{
    assert forall|b: u8| #[trigger]
        shell::is_scripting(b) == one_of(b, "\\|&;<>()$`\n*?[#~%") by {
        lemma_scripting(b);
    }
    reveal_strlit(" \t");
    assert(" \t"@[0] == ' ' && " \t"@[1] == '\t');
    assert forall|b: u8| shell::is_blank(b) && !shell::is_scripting(b) <==> #[trigger] one_of(
        b,
        " \t",
    ) by {}
    let line = prep.command@;
    if !shell::has_scripting(line) {
        assert forall|i: int| 0 <= i < line.len() implies shell::is_blank(#[trigger] line[i])
            == one_of(line[i], " \t") by {
            assert(!shell::is_scripting(line[i]));
        }
    }
    if let Some(context) = prep.context {
        if let Some(namespace) = context.ref_namespace {
            assert(prep@.context->0.ref_namespace == Some(namespace@));
        } else {
            assert(prep@.context->0.ref_namespace is None);
        }
    }
    assert((exists|i: int|
        0 <= i < line.len() && one_of(#[trigger] line[i], "\\|&;<>()$`\n*?[#~%"))
        == shell::has_scripting(line)) by {
        if shell::has_scripting(line) {
            let i = choose|i: int| 0 <= i < line.len() && shell::is_scripting(#[trigger] line[i]);
            assert(one_of(line[i], "\\|&;<>()$`\n*?[#~%"));
        }
        if exists|i: int|
            0 <= i < line.len() && one_of(#[trigger] line[i], "\\|&;<>()$`\n*?[#~%") {
            let i = choose|i: int|
                0 <= i < line.len() && one_of(#[trigger] line[i], "\\|&;<>()$`\n*?[#~%");
            assert(shell::is_scripting(line[i]));
        }
    }
}

/// Whether the command of `prep` needs a shell: it is not UTF-8, or one of its bytes is shell syntax,
/// wherever it is and whatever the others are.
pub open spec fn needs_a_shell(prep: Prepare) -> bool {
    ||| !valid_utf8(prep.command@)
    ||| exists|i: int|
        0 <= i < prep.command@.len() && one_of(
            #[trigger] prep.command@[i],
            "|&;<>()$`\\\"' \t\n*?[#~=%",
        )
}

/// Any byte of shell syntax makes a command need a shell.
proof fn lemma_needs_a_shell(prep: Prepare)
    ensures
        prepare::may_be_shell_script(prep.command@) == needs_a_shell(prep),
{
    let line = prep.command@;
    if shell::has_shell_syntax(line) {
        let i = choose|i: int| 0 <= i < line.len() && shell::is_shell_syntax(#[trigger] line[i]);
        lemma_shell_syntax(line[i]);
    }
    if exists|i: int|
        0 <= i < line.len() && one_of(#[trigger] line[i], "|&;<>()$`\\\"' \t\n*?[#~=%") {
        let i = choose|i: int|
            0 <= i < line.len() && one_of(#[trigger] line[i], "|&;<>()$`\\\"' \t\n*?[#~=%");
        lemma_shell_syntax(line[i]);
    }
}

/// A command that may be a shell script uses a shell if it isn't UTF-8 or if any of its bytes is shell
/// syntax, and doesn't otherwise. Nothing else is changed.
pub proof fn any_shell_syntax_asks_for_a_shell(prep: Prepare, after: Prepare)
    requires
        call_ensures(Prepare::command_may_be_shell_script, (prep,), after),
    ensures
        after.use_shell == needs_a_shell(prep),
        after.allow_manual_arg_splitting == prep.allow_manual_arg_splitting,
        keeps_the_rest(prep, after),
{
    lemma_needs_a_shell(prep);
    lemma_keeps_the_rest(prep, after);
}

/// The same holds if splitting by hand is allowed along with it, or disallowed.
pub proof fn any_shell_syntax_asks_for_a_shell_with_or_without_splitting(
    prep: Prepare,
    allowed: Prepare,
    disallowed: Prepare,
)
    requires
        call_ensures(
            Prepare::command_may_be_shell_script_allow_manual_argument_splitting,
            (prep,),
            allowed,
        ),
        call_ensures(
            Prepare::command_may_be_shell_script_disallow_manual_argument_splitting,
            (prep,),
            disallowed,
        ),
    ensures
        allowed.use_shell == needs_a_shell(prep),
        disallowed.use_shell == needs_a_shell(prep),
        allowed.allow_manual_arg_splitting,
        !disallowed.allow_manual_arg_splitting,
        keeps_the_rest(prep, allowed),
        keeps_the_rest(prep, disallowed),
{
    lemma_needs_a_shell(prep);
    lemma_keeps_the_rest(prep, allowed);
    lemma_keeps_the_rest(prep, disallowed);
}

/// Whether `after` is like `prep` but for whether a shell is used and may be bypassed.
pub open spec fn keeps_the_rest(prep: Prepare, after: Prepare) -> bool {
    &&& after.command@ == prep.command@
    &&& after@.context == prep@.context
    &&& after.stdin == prep.stdin
    &&& after.stdout == prep.stdout
    &&& after.stderr == prep.stderr
    &&& after@.args == prep@.args
    &&& after@.env == prep@.env
    &&& after.quote_command == prep.quote_command
    &&& after@.shell_program == prep@.shell_program
}

/// What is left unchanged is kept.
proof fn lemma_keeps_the_rest(prep: Prepare, after: Prepare)
    requires
        after@ == (prepare::PrepareView {
            use_shell: after@.use_shell,
            allow_manual_arg_splitting: after@.allow_manual_arg_splitting,
            ..prep@
        }),
    ensures
        keeps_the_rest(prep, after),
{
    assert(after@.stdin == prep@.stdin && after@.stdout == prep@.stdout);
    assert(after@.stderr == prep@.stderr && after@.quote_command == prep@.quote_command);
    assert(after@.command == prep@.command);
}

/// A shell is used no matter what after asking for one, and never after turning it off. Neither changes
/// anything else.
pub proof fn shell_is_turned_on_and_off(prep: Prepare, on: Prepare, off: Prepare)
    requires
        call_ensures(Prepare::with_shell, (prep,), on),
        call_ensures(Prepare::without_shell, (on,), off),
    ensures
        on.use_shell && !on.allow_manual_arg_splitting,
        is_left_to_the_shell(on),
        !off.use_shell,
        keeps_the_rest(prep, on),
        keeps_the_rest(prep, off),
{
    assert(on@.use_shell && !on@.allow_manual_arg_splitting && !off@.use_shell);
    lemma_keeps_the_rest(prep, on);
    lemma_keeps_the_rest(prep, off);
}

/// Adding arguments one by one or all at once comes to the same, and keeps those that are there.
pub proof fn arguments_are_added_in_order(
    prep: Prepare,
    arg: Vec<u8>,
    args: Vec<Vec<u8>>,
    one: Prepare,
    more: Prepare,
)
    requires
        call_ensures(Prepare::arg, (prep, arg), one),
        call_ensures(Prepare::args, (one, args), more),
    ensures
        more.args@.len() == prep.args@.len() + 1 + args@.len(),
        forall|i: int|
            0 <= i < prep.args@.len() ==> more.args@[i]@ == #[trigger] prep.args@[i]@,
        more.args@[prep.args@.len() as int]@ == arg@,
        forall|i: int|
            0 <= i < args@.len() ==> more.args@[prep.args@.len() + 1 + i]@
                == #[trigger] args@[i]@,
{
    lemma_views(prep.args@);
    lemma_views(args@);
    lemma_views(one.args@);
    lemma_views(more.args@);
    let all = more@.args;
    assert forall|i: int| 0 <= i < prep.args@.len() implies more.args@[i]@
        == #[trigger] prep.args@[i]@ by {
        assert(all[i] == prep@.args[i]);
    }
    assert(all[prep.args@.len() as int] == arg@);
    assert forall|i: int| 0 <= i < args@.len() implies more.args@[prep.args@.len() + 1 + i]@
        == #[trigger] args@[i]@ by {
        assert(all[prep.args@.len() + 1 + i] == bytes::views(args@)[i]);
    }
}

/// A command that was just prepared runs directly, without arguments or variables, reads nothing, and
/// has its output captured. It may be split by hand on Windows only.
pub proof fn fresh_command_has_defaults(cmd: Vec<u8>, windows: bool, prep: Prepare)
    requires
        call_ensures(prepare::prepare, (cmd, windows), prep),
    ensures
        prep.command@ == cmd@,
        prep.context is None,
        prep.stdin == Stdio::Null,
        prep.stdout == Stdio::Piped,
        prep.stderr == Stdio::Inherit,
        prep.args@.len() == 0,
        prep.env@.len() == 0,
        !prep.use_shell,
        !prep.quote_command,
        prep.shell_program is None,
        prep.allow_manual_arg_splitting == windows,
{
    assert(prep@.command == cmd@);
    assert(prep@.args.len() == prep.args@.len() && prep@.env.len() == prep.env@.len());
    assert(prep@.stdin == prep.stdin && prep@.stdout == prep.stdout);
    assert(prep@.stderr == prep.stderr && prep@.use_shell == prep.use_shell);
    assert(prep@.context is None && prep@.shell_program is None);
}

/// What is configured last for a stream counts, and each stream is configured by itself.
pub proof fn streams_are_configured_one_by_one(
    prep: Prepare,
    first: Stdio,
    second: Stdio,
    third: Stdio,
    stdin: Prepare,
    stdout: Prepare,
    stderr: Prepare,
)
    requires
        call_ensures(Prepare::stdin, (prep, first), stdin),
        call_ensures(Prepare::stdout, (stdin, second), stdout),
        call_ensures(Prepare::stderr, (stdout, third), stderr),
    ensures
        stderr.stdin == first,
        stderr.stdout == second,
        stderr.stderr == third,
        stderr@ == (prepare::PrepareView {
            stdin: first,
            stdout: second,
            stderr: third,
            ..prep@
        }),
{
    assert(stderr@.stdin == first && stderr@.stdout == second && stderr@.stderr == third);
}

/// The variables that are set for a command come first, as they are and in order. Without a context
/// there are no others.
pub proof fn own_variables_come_first(prep: Prepare, host: Host, command: Command)
    requires
        call_ensures(Command::from, (prep, host), command),
    ensures
        command.env@.len() >= prep.env@.len(),
        prep.context is None ==> command.env@.len() == prep.env@.len(),
        forall|i: int|
            0 <= i < prep.env@.len() ==> command.env@[i].0@ == (#[trigger] prep.env@[i]).0@
                && command.env@[i].1@ == prep.env@[i].1@,
{
    let all = command@.env;
    assert(all.len() == command.env@.len());
    assert forall|i: int| 0 <= i < prep.env@.len() implies command.env@[i].0@ == (
    #[trigger] prep.env@[i]).0@ && command.env@[i].1@ == prep.env@[i].1@ by {
        assert(all[i] == prep@.env[i]);
        assert(all[i] == (command.env@[i].0@, command.env@[i].1@));
        assert(prep@.env[i] == (prep.env@[i].0@, prep.env@[i].1@));
    }
}

/// The value of the variable `name` for the process that `command` spawns.
pub open spec fn variable(command: Command, name: &str) -> Option<Seq<u8>> {
    context::value_of(command@.env, encode_utf8(name@))
}

/// The value of a flag for the process, which is `1` or `0`.
pub open spec fn written(flag: bool) -> Option<Seq<u8>> {
    Some(
        seq![
            if flag {
                '1' as u8
            } else {
                '0' as u8
            },
        ],
    )
}

/// Each setting of the context sets a variable of its own to what it holds. What is not set there is as
/// it was set for the command, if it was.
pub proof fn context_sets_its_variables(
    prep: Prepare,
    host: Host,
    command: Command,
    context: Context,
)
    requires
        call_ensures(Command::from, (prep, host), command),
        prep.context == Some(context),
    ensures
        context.git_dir matches Some(dir) ==> variable(command, "GIT_DIR") == Some(dir@),
        context.worktree_dir matches Some(dir) ==> variable(command, "GIT_WORK_TREE") == Some(dir@),
        context.ref_namespace matches Some(name) ==> variable(command, "GIT_NAMESPACE") == Some(
            name@,
        ),
        context.no_replace_objects matches Some(flag) ==> variable(
            command,
            "GIT_NO_REPLACE_OBJECTS",
        ) == written(flag),
        context.literal_pathspecs matches Some(flag) ==> variable(command, "GIT_LITERAL_PATHSPECS")
            == written(flag),
        context.icase_pathspecs matches Some(flag) ==> variable(command, "GIT_ICASE_PATHSPECS")
            == written(flag),
        context.glob_pathspecs == Some(true) ==> variable(command, "GIT_GLOB_PATHSPECS") == written(
            true,
        ),
        context.glob_pathspecs == Some(false) ==> variable(command, "GIT_NOGLOB_PATHSPECS")
            == written(true),
{
    context::lemma_names_differ();
    let view = prep@.context->0;
    assert(view == context@);
    let names = seq![
        bytes::text("GIT_DIR"),
        bytes::text("GIT_WORK_TREE"),
        bytes::text("GIT_NO_REPLACE_OBJECTS"),
        bytes::text("GIT_NAMESPACE"),
        bytes::text("GIT_LITERAL_PATHSPECS"),
        bytes::text("GIT_GLOB_PATHSPECS"),
        bytes::text("GIT_NOGLOB_PATHSPECS"),
        bytes::text("GIT_ICASE_PATHSPECS"),
    ];
    assert forall|i: int| 0 <= i < names.len() implies context::value_of(
        command@.env,
        #[trigger] names[i],
    ) == match context::context_value(view, names[i]) {
        Some(value) => Some(value),
        None => context::value_of(prep@.env, names[i]),
    } by {
        crate::laws::context_overrides_environment(prep@, host@, names[i]);
    }
    assert(names[0] == encode_utf8("GIT_DIR"@));
    assert(names[1] == encode_utf8("GIT_WORK_TREE"@));
    assert(names[2] == encode_utf8("GIT_NO_REPLACE_OBJECTS"@));
    assert(names[3] == encode_utf8("GIT_NAMESPACE"@));
    assert(names[4] == encode_utf8("GIT_LITERAL_PATHSPECS"@));
    assert(names[5] == encode_utf8("GIT_GLOB_PATHSPECS"@));
    assert(names[6] == encode_utf8("GIT_NOGLOB_PATHSPECS"@));
    assert(names[7] == encode_utf8("GIT_ICASE_PATHSPECS"@));
}

/// What a flag counts for: one variable if it is set, and none otherwise.
pub open spec fn count_of<T>(setting: Option<T>) -> int {
    if setting is Some {
        1
    } else {
        0
    }
}

/// The context sets just as many variables as it has settings, not counting the one for standard error.
pub proof fn context_sets_nothing_else(
    prep: Prepare,
    host: Host,
    command: Command,
    context: Context,
)
    requires
        call_ensures(Command::from, (prep, host), command),
        prep.context == Some(context),
    ensures
        command.env@.len() == prep.env@.len() + count_of(context.git_dir) + count_of(
            context.worktree_dir,
        ) + count_of(context.ref_namespace) + count_of(context.no_replace_objects) + count_of(
            context.literal_pathspecs,
        ) + count_of(context.glob_pathspecs) + count_of(context.icase_pathspecs),
{
    let view = prep@.context->0;
    assert(view == context@);
    assert(command@.env.len() == command.env@.len() && prep@.env.len() == prep.env@.len());
    assert(context.glob_pathspecs is Some ==> context.glob_pathspecs == Some(true)
        || context.glob_pathspecs == Some(false));
    let glob = context::one_if(view.glob_pathspecs, true);
    let noglob = context::one_if(view.glob_pathspecs, false);
    assert(count_of(glob) + count_of(noglob) == count_of(context.glob_pathspecs));
    assert(count_of(context::flag_value(view.icase_pathspecs)) == count_of(
        context.icase_pathspecs,
    ));
    assert(count_of(context::flag_value(view.literal_pathspecs)) == count_of(
        context.literal_pathspecs,
    ));
    assert(count_of(context::flag_value(view.no_replace_objects)) == count_of(
        context.no_replace_objects,
    ));
    assert(command@.env == prep@.env + context::context_variables(view));
    lemma_setting_len(view);
}

/// Each variable is set once.
proof fn lemma_setting_len(context: ContextView)
    ensures
        context::context_variables(context).len() == count_of(context.git_dir) + count_of(
            context.worktree_dir,
        ) + count_of(context::flag_value(context.no_replace_objects)) + count_of(
            context.ref_namespace,
        ) + count_of(context::flag_value(context.literal_pathspecs)) + count_of(
            context::one_if(context.glob_pathspecs, true),
        ) + count_of(context::one_if(context.glob_pathspecs, false)) + count_of(
            context::flag_value(context.icase_pathspecs),
        ),
{
    assert forall|name: Seq<u8>, value: Option<Seq<u8>>| (
    #[trigger] context::setting(name, value)).len() == count_of(value) by {}
}

/// Without any words, a command that asks for a shell is run by it, just like one that may not be split.
pub proof fn command_without_words_is_left_to_the_shell(
    prep: Prepare,
    host: Host,
    unsplit: Prepare,
    command: Command,
    same: Command,
)
    requires
        call_ensures(Command::from_words, (prep, host, None::<Vec<String>>), command),
        call_ensures(Command::from, (unsplit, host), same),
        prep.use_shell,
        unsplit@ == (prepare::PrepareView { allow_manual_arg_splitting: false, ..prep@ }),
    ensures
        command@ == same@,
{
}

/// Words are of no use to a command that doesn't ask for a shell.
pub proof fn words_are_for_shell_commands_only(
    prep: Prepare,
    host: Host,
    words: Option<Vec<String>>,
    command: Command,
    same: Command,
)
    requires
        call_ensures(Command::from_words, (prep, host, words), command),
        call_ensures(Command::from, (prep, host), same),
        !prep.use_shell,
    ensures
        command@ == same@,
{
    assert(command@ == same@);
}

/// A quote or exclamation mark in a command that is to be quoted is moved out of the single quotes and
/// gets a backslash, while all else stays as it is.
pub proof fn quotes_and_exclamation_marks_are_escaped(
    prep: Prepare,
    host: Host,
    command: Command,
    before: Seq<u8>,
    special: u8,
    after: Seq<u8>,
)
    requires
        call_ensures(Command::from, (prep, host), command),
        is_left_to_the_shell(prep),
        prep.quote_command,
        !host.windows || valid_utf8(prep.command@),
        prep.args@.len() == 0,
        prep.command@ == before + seq![special] + after,
        one_of(special, "'!"),
        forall|i: int| 0 <= i < before.len() ==> !one_of(#[trigger] before[i], "'!"),
        forall|i: int| 0 <= i < after.len() ==> !one_of(#[trigger] after[i], "'!"),
    ensures
        command.args@[1]@ == seq!['\'' as u8] + before + seq![
            '\'' as u8,
            '\\' as u8,
            special,
            '\'' as u8,
        ] + after + seq!['\'' as u8],
{
    lemma_views(command.args@);
    lemma_split(prep);
    lemma_escaped_one(before, special, after);
    assert(command@.args[1] == command.args@[1]@);
    assert(command.args@[1]@ =~= seq!['\'' as u8] + before + seq![
        '\'' as u8,
        '\\' as u8,
        special,
        '\'' as u8,
    ] + after + seq!['\'' as u8]);
}

/// Only what is special is escaped.
proof fn lemma_escaped_one(before: Seq<u8>, special: u8, after: Seq<u8>)
    requires
        one_of(special, "'!"),
        forall|i: int| 0 <= i < before.len() ==> !one_of(#[trigger] before[i], "'!"),
        forall|i: int| 0 <= i < after.len() ==> !one_of(#[trigger] after[i], "'!"),
    ensures
        shell::escaped(before + seq![special] + after) == before + seq![
            '\'' as u8,
            '\\' as u8,
            special,
            '\'' as u8,
        ] + after,
    decreases before.len(),
{
    reveal_strlit("'!");
    assert("'!"@[0] == '\'' && "'!"@[1] == '!');
    let value = before + seq![special] + after;
    if before.len() == 0 {
        lemma_escaped(after);
        assert(value[0] == special);
        assert(value.skip(1) =~= after);
        assert(shell::escaped(value) =~= before + seq![
            '\'' as u8,
            '\\' as u8,
            special,
            '\'' as u8,
        ] + after);
    } else {
        let rest = before.skip(1);
        assert(!one_of(before[0], "'!"));
        assert forall|i: int| 0 <= i < rest.len() implies !one_of(#[trigger] rest[i], "'!") by {
            assert(rest[i] == before[i + 1]);
        }
        lemma_escaped_one(rest, special, after);
        assert(value[0] == before[0]);
        assert(value.skip(1) =~= rest + seq![special] + after);
        assert(shell::escaped(value) =~= before + seq![
            '\'' as u8,
            '\\' as u8,
            special,
            '\'' as u8,
        ] + after);
    }
}

/// Each of these settings is what it was set to last, and leaves all others alone.
pub proof fn settings_are_kept(
    prep: Prepare,
    program: Vec<u8>,
    context: Context,
    quoted: Prepare,
    with_program: Prepare,
    with_context: Prepare,
)
    requires
        call_ensures(Prepare::with_quoted_command, (prep,), quoted),
        call_ensures(Prepare::with_shell_program, (quoted, program), with_program),
        call_ensures(Prepare::with_context, (with_program, context), with_context),
    ensures
        with_context.quote_command,
        with_context.shell_program matches Some(shell) && shell@ == program@,
        with_context.context matches Some(kept) && kept@ == context@,
        with_context@ == (prepare::PrepareView {
            quote_command: true,
            shell_program: Some(program@),
            context: Some(context@),
            ..prep@
        }),
{
    assert(with_context@.quote_command);
    assert(with_context@.shell_program == Some(program@));
    assert(with_context@.context == Some(context@));
}

/// A variable is added after those that were set before, with the name and value that are given.
pub proof fn variables_are_added_in_order(
    prep: Prepare,
    key: Vec<u8>,
    value: Vec<u8>,
    after: Prepare,
)
    requires
        call_ensures(Prepare::env, (prep, key, value), after),
    ensures
        after.env@.len() == prep.env@.len() + 1,
        after.env@.last().0@ == key@,
        after.env@.last().1@ == value@,
        forall|i: int|
            0 <= i < prep.env@.len() ==> after.env@[i].0@ == (#[trigger] prep.env@[i]).0@
                && after.env@[i].1@ == prep.env@[i].1@,
        after@ == (prepare::PrepareView { env: after@.env, ..prep@ }),
{
    let all = after@.env;
    assert(all.len() == after.env@.len() && prep@.env.len() == prep.env@.len());
    let last = after.env@.len() - 1;
    assert(all[last] == (after.env@[last].0@, after.env@[last].1@));
    assert(all[last] == (key@, value@));
    assert forall|i: int| 0 <= i < prep.env@.len() implies after.env@[i].0@ == (
    #[trigger] prep.env@[i]).0@ && after.env@[i].1@ == prep.env@[i].1@ by {
        assert(all[i] == prep@.env[i]);
        assert(all[i] == (after.env@[i].0@, after.env@[i].1@));
        assert(prep@.env[i] == (prep.env@[i].0@, prep.env@[i].1@));
    }
}

} // verus!
