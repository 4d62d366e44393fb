//! What holds of prepared commands, whatever they are.

use crate::bytes;
use crate::command;
use crate::command::HostView;
use crate::context;
use crate::path;
use crate::path::LookupView;
use crate::prepare;
use crate::prepare::{PrepareView, Stdio};
use crate::shebang;
use crate::shebang::DataView;
use crate::shell;
use vstd::prelude::*;
use vstd::utf8::*;

verus! {

/// A command that asks for a shell is run by the configured shell or else the one of the host,
/// unless it is split into words. The shell is a fallback whenever that isn't possible.
pub proof fn shell_runs_what_is_not_split(prep: PrepareView, host: HostView)
    requires
        prep.use_shell,
        prepare::manual_words(prep) is None,
    ensures
        command::command_of(prep, host).program == command::shell_program(prep, host),
        command::command_of(prep, host).args == seq![
            seq!['-' as u8, 'c' as u8],
            command::shell_script(prep, host.windows),
            seq!['-' as u8, '-' as u8],
        ] + prep.args,
{
}

/// After `with_shell()` a shell is used, no matter what.
pub proof fn with_shell_uses_a_shell(prep: PrepareView, host: HostView)
    ensures
        ({
            let prep = PrepareView { use_shell: true, allow_manual_arg_splitting: false, ..prep };
            command::command_of(prep, host).program == command::shell_program(prep, host)
        }),
{
}

/// After `command_may_be_shell_script_disallow_manual_argument_splitting()` the shell isn't bypassed
/// for a command that may be a script.
pub proof fn disallowed_splitting_uses_a_shell(prep: PrepareView, host: HostView)
    requires
        prepare::may_be_shell_script(prep.command),
    ensures
        ({
            let prep = PrepareView {
                use_shell: prepare::may_be_shell_script(prep.command),
                allow_manual_arg_splitting: false,
                ..prep
            };
            command::command_of(prep, host).program == command::shell_program(prep, host)
        }),
{
}

/// After `command_may_be_shell_script()` a shell is always used for a command that isn't UTF-8.
pub proof fn ill_formed_command_uses_a_shell(prep: PrepareView, host: HostView)
    requires
        !valid_utf8(prep.command),
    ensures
        ({
            let prep = PrepareView {
                use_shell: prepare::may_be_shell_script(prep.command),
                ..prep
            };
            command::command_of(prep, host).program == command::shell_program(prep, host)
        }),
{
}

/// A command that doesn't ask for a shell is executed verbatim and directly, unless it has to be run
/// by an interpreter on Windows.
pub proof fn direct_command_is_run_verbatim(prep: PrepareView, host: HostView)
    requires
        !prep.use_shell,
        !host.windows || host.script is None,
    ensures
        command::command_of(prep, host).program == prep.command,
        command::command_of(prep, host).args == prep.args,
{
    assert(Seq::<Seq<u8>>::empty() + prep.args =~= prep.args);
}

/// After `command_may_be_shell_script()` a command without any shell syntax is executed verbatim and
/// directly.
pub proof fn plain_command_needs_no_shell(prep: PrepareView, host: HostView)
    requires
        valid_utf8(prep.command),
        !shell::has_shell_syntax(prep.command),
        !host.windows || host.script is None,
    ensures
        ({
            let prep = PrepareView {
                use_shell: prepare::may_be_shell_script(prep.command),
                ..prep
            };
            &&& command::command_of(prep, host).program == prep.command
            &&& command::command_of(prep, host).args == prep.args
        }),
{
    direct_command_is_run_verbatim(
        PrepareView { use_shell: prepare::may_be_shell_script(prep.command), ..prep },
        host,
    );
}

/// Whether arguments may be split manually is of no effect unless a shell is asked for.
pub proof fn splitting_is_for_shell_commands_only(prep: PrepareView, host: HostView, allow: bool)
    requires
        !prep.use_shell,
    ensures
        command::command_of(
            PrepareView { allow_manual_arg_splitting: allow, ..prep },
            host,
        ) == command::command_of(prep, host),
{
}

/// A command that can do without its shell runs the first of its words with the others as arguments.
pub proof fn split_command_runs_its_first_word(prep: PrepareView, host: HostView)
    requires
        prepare::manual_words(prep) is Some,
    ensures
        ({
            let words = prepare::manual_words(prep)->0;
            &&& command::command_of(prep, host).program == encode_utf8(words[0])
            &&& command::command_of(prep, host).args == bytes::encoded(words.skip(1)) + prep.args
        }),
{
}

/// Only a command that is free of scripting is ever split by hand.
pub proof fn split_command_holds_no_scripting(prep: PrepareView)
    requires
        prepare::manual_words(prep) is Some,
    ensures
        prep.use_shell,
        prep.allow_manual_arg_splitting,
        !shell::has_scripting(prep.command),
{
}

/// The arguments of the command are passed as they are and in order, after all others.
pub proof fn arguments_come_last(prep: PrepareView, host: HostView)
    ensures
        ({
            let args = command::command_of(prep, host).args;
            &&& args.len() >= prep.args.len()
            &&& args.skip(args.len() - prep.args.len()) == prep.args
        }),
{
    let args = command::command_of(prep, host).args;
    assert(args.skip(args.len() - prep.args.len()) =~= prep.args);
}

/// If there are arguments, the script that a shell is to run mentions them.
pub proof fn script_mentions_arguments(prep: PrepareView, windows: bool)
    requires
        prep.args.len() > 0,
    ensures
        shell::mentions_arguments(command::shell_script(prep, windows)),
{
    if !(valid_utf8(prep.command) && shell::mentions_arguments(prep.command)) {
        let script = command::shell_script(prep, windows);
        let at = script.len() - 3;
        assert(script[at] == command::pass_arguments()[2]);
        assert(script[at + 1] == command::pass_arguments()[3]);
        assert(shell::is_dollar_at(script, at));
    }
}

/// A script that mentions its arguments already is passed on as is.
pub proof fn script_that_mentions_its_arguments_is_kept(prep: PrepareView, windows: bool)
    requires
        prep.args.len() > 0,
        valid_utf8(prep.command),
        shell::mentions_arguments(prep.command),
    ensures
        command::shell_script(prep, windows) == prep.command,
{
}

/// A script that has no arguments is passed on as is, unless it is to be quoted.
pub proof fn script_without_arguments_is_kept(prep: PrepareView, windows: bool)
    requires
        prep.args.len() == 0,
        !prep.quote_command,
    ensures
        command::shell_script(prep, windows) == prep.command,
{
}

/// A shell executes a quoted command as is and without splitting it across whitespace: the first word
/// that it reads is the command, and all that follows are the arguments, if there are any. This is so
/// unless the command mentions the arguments by itself, and so is a script rather than a program.
pub proof fn quoted_command_is_left_intact(prep: PrepareView, windows: bool)
    requires
        prep.quote_command,
        prep.args.len() > 0 ==> !(valid_utf8(prep.command) && shell::mentions_arguments(
            prep.command,
        )),
        command::can_quote(prep.command, windows),
    ensures
        shell::read_word(command::shell_script(prep, windows), false) == Some(
            (
                prep.command,
                if prep.args.len() > 0 {
                    command::pass_arguments()
                } else {
                    seq![]
                },
            ),
        ),
{
    if prep.args.len() > 0 {
        shell::quoted_value_is_one_word(prep.command, command::pass_arguments());
    } else {
        let quoted = shell::single_quoted(prep.command);
        assert(quoted + Seq::<u8>::empty() =~= quoted);
        shell::quoted_value_is_one_word(prep.command, seq![]);
    }
}

/// On Windows, a script that was found by a path that isn't absolute has its options stripped. The
/// interpreter only gets to see the command and its arguments.
pub proof fn relative_script_has_no_options(prep: PrepareView, host: HostView)
    requires
        !prep.use_shell,
        host.windows,
        host.script matches Some(script) && !script.absolute,
    ensures
        command::command_of(prep, host).program == host.script->0.shebang.interpreter,
        command::command_of(prep, host).args == seq![prep.command] + prep.args,
{
    let none = Seq::<Seq<u8>>::empty();
    assert(none + seq![prep.command] =~= seq![prep.command]);
}

/// On Windows, a script that was found by an absolute path gets the options of its shebang.
pub proof fn absolute_script_has_its_options(prep: PrepareView, host: HostView)
    requires
        !prep.use_shell,
        host.windows,
        host.script matches Some(script) && script.absolute,
    ensures
        command::command_of(prep, host).program == host.script->0.shebang.interpreter,
        command::command_of(prep, host).args == host.script->0.shebang.args + seq![prep.command]
            + prep.args,
{
}

/// Every variable of the context is set to the value that it has there, even if the same one was set
/// before. All others are as they were set for the command. Names are compared byte by byte. This is
/// what the process gets to see as well, but for Windows, where the case of names is ignored.
pub proof fn context_overrides_environment(prep: PrepareView, host: HostView, name: Seq<u8>)
    ensures
        context::value_of(command::command_of(prep, host).env, name) == match prep.context {
            Some(context) => match context::context_value(context, name) {
                Some(value) => Some(value),
                None => context::value_of(prep.env, name),
            },
            None => context::value_of(prep.env, name),
        },
{
    if let Some(context) = prep.context {
        context::lemma_context_value(context, name);
        context::lemma_value_of_concat(prep.env, context::context_variables(context), name);
    }
}

/// A variable that is set with `env()` has that value, whatever it was set to before.
pub proof fn last_variable_counts(env: Seq<(Seq<u8>, Seq<u8>)>, name: Seq<u8>, value: Seq<u8>)
    ensures
        context::value_of(env.push((name, value)), name) == Some(value),
        forall|other: Seq<u8>|
            other != name ==> #[trigger] context::value_of(env.push((name, value)), other)
                == context::value_of(env, other),
{
    assert(env.push((name, value)).drop_last() =~= env);
}

/// Standard error is as the context says, whatever was set with `stderr()`.
pub proof fn context_overrides_stderr(prep: PrepareView, host: HostView, stdio: Stdio)
    requires
        prep.context matches Some(context) && context.stderr is Some,
    ensures
        command::command_of(PrepareView { stderr: stdio, ..prep }, host).stderr == (
        if prep.context->0.stderr == Some(true) {
            Stdio::Inherit
        } else {
            Stdio::Null
        }),
{
}

/// On Windows, terminal windows are suppressed for every command.
pub proof fn no_window_pops_up(prep: PrepareView, host: HostView)
    requires
        host.windows,
    ensures
        command::command_of(prep, host).creation_flags == command::CREATE_NO_WINDOW,
{
}

/// The white space at the ends of a line is no part of the interpreter in it, nor of the options.
pub proof fn shebang_is_trimmed(buf: Seq<u8>)
    requires
        shebang::line_of(buf) is Some,
    ensures
        ({
            let line = shebang::line_of(buf)->0;
            &&& bytes::leading_space(line.interpreter) == 0
            &&& bytes::trailing_space(line.interpreter) == 0
            &&& bytes::leading_space(line.options) == 0
            &&& bytes::trailing_space(line.options) == 0
        }),
{
    let line = shebang::after_marker(bytes::first_line(buf)->0)->0;
    let slash = bytes::last_separator(line)->0;
    bytes::trimmed_has_no_outer_space(line);
    if let Some(space) = bytes::first_of(line.skip(slash), ' ' as u8) {
        bytes::trimmed_has_no_outer_space(line.take(slash + space));
        bytes::trimmed_has_no_outer_space(line.skip(slash + space + 1));
    }
}

/// The interpreter in a shebang is a path.
pub proof fn interpreter_is_a_path(buf: Seq<u8>)
    requires
        shebang::data_of(buf) is Some,
    ensures
        bytes::has_separator(shebang::data_of(buf)->0.interpreter),
{
    let line = shebang::after_marker(bytes::first_line(buf)->0)->0;
    bytes::lemma_has_last_separator(line);
    let slash = bytes::last_separator(line)->0;
    match bytes::first_of(line.skip(slash), ' ' as u8) {
        Some(space) => {
            bytes::lemma_has_first(line.skip(slash), ' ' as u8);
            assert(line.skip(slash)[0] == line[slash]);
            assert(line.take(slash + space)[slash] == line[slash]);
            bytes::lemma_trimmed_keeps(line.take(slash + space), line[slash]);
        },
        None => bytes::lemma_trimmed_keeps(line, line[slash]),
    }
    let interpreter = shebang::data_of(buf)->0.interpreter;
    let at = choose|i: int| 0 <= i < interpreter.len() && interpreter[i] == line[slash];
    assert(bytes::is_separator(interpreter[at]));
}

/// Ill-formed UTF-8 prevents argument splitting.
pub proof fn ill_formed_options_are_not_split(buf: Seq<u8>)
    requires
        shebang::line_of(buf) matches Some(line) && !valid_utf8(line.options),
    ensures
        shebang::data_of(buf) matches Some(data) && data.args == seq![
            shebang::line_of(buf)->0.options,
        ],
{
}

/// A carriage return at the end of a line is white space like any other, and changes nothing.
proof fn lemma_carriage_return(line: Seq<u8>)
    ensures
        shebang::interpreter_and_options(line.push('\r' as u8)) == shebang::interpreter_and_options(
            line,
        ),
{
    let long = line.push('\r' as u8);
    if bytes::has_separator(line) {
        bytes::lemma_has_last_separator(line);
        let slash = bytes::last_separator(line)->0;
        assert(long[slash] == line[slash]);
        assert forall|i: int| slash < i < long.len() implies !bytes::is_separator(
            #[trigger] long[i],
        ) by {
            if i < line.len() {
                assert(long[i] == line[i]);
            }
        }
        bytes::lemma_last_separator(long, slash);
        assert(long.skip(slash) =~= line.skip(slash).push('\r' as u8));
        if line.skip(slash).contains(' ' as u8) {
            bytes::lemma_has_first(line.skip(slash), ' ' as u8);
            let space = bytes::first_of(line.skip(slash), ' ' as u8)->0;
            assert forall|i: int| 0 <= i < space implies long.skip(slash)[i] != ' ' as u8 by {
                assert(long.skip(slash)[i] == line.skip(slash)[i]);
            }
            assert(long.skip(slash)[space] == ' ' as u8);
            bytes::lemma_first_of(long.skip(slash), ' ' as u8, space);
            let options = line.skip(slash + space + 1);
            assert(long.take(slash + space) =~= line.take(slash + space));
            assert(long.skip(slash + space + 1) =~= options.push('\r' as u8));
            bytes::lemma_trimmed_push(options);
        } else {
            assert forall|i: int| 0 <= i < long.skip(slash).len() implies long.skip(slash)[i]
                != ' ' as u8 by {
                if i < line.skip(slash).len() {
                    assert(long.skip(slash)[i] == line.skip(slash)[i]);
                    assert(line.skip(slash).contains(line.skip(slash)[i]));
                }
            }
            bytes::lemma_trimmed_push(line);
        }
    } else {
        assert forall|i: int| 0 <= i < long.len() implies !bytes::is_separator(
            #[trigger] long[i],
        ) by {
            if i < line.len() {
                assert(long[i] == line[i]);
            }
        }
    }
}

/// Of a first line that ends with a line feed, the shebang is that of the line alone.
proof fn lemma_first_line(line: Seq<u8>, rest: Seq<u8>)
    requires
        !line.contains('\n' as u8),
    ensures
        shebang::line_of(line + seq!['\n' as u8] + rest) == shebang::line_of(line),
{
    let all = line + seq!['\n' as u8] + rest;
    let end = line.len() as int;
    assert forall|i: int| 0 <= i < end implies all[i] != '\n' as u8 by {
        assert(all[i] == line[i]);
        assert(line.contains(line[i]));
    }
    assert(all[end] == '\n' as u8);
    bytes::lemma_first_of(all, '\n' as u8, end);
    assert(all.take(end) =~= line);
    if end > 0 && line.last() == '\r' as u8 {
        let short = line.drop_last();
        assert(all[end - 1] == line.last());
        assert(all.take(end - 1) =~= short);
        assert(short.push('\r' as u8) =~= line);
        if short.len() >= 2 {
            assert(short[0] == line[0] && short[1] == line[1]);
            assert(line.skip(2) =~= short.skip(2).push('\r' as u8));
            lemma_carriage_return(short.skip(2));
        } else if end == 2 {
            assert(line[1] == '\r' as u8);
        }
    } else if end > 0 {
        assert(all[end - 1] == line.last());
    }
}

/// Only the first line of a file is of interest, whether or not another one comes after it, and
/// whichever way it is ended.
pub proof fn only_the_first_line_counts(line: Seq<u8>, rest: Seq<u8>)
    requires
        !line.contains('\n' as u8),
    ensures
        shebang::data_of(line + seq!['\n' as u8] + rest) == shebang::data_of(line),
        shebang::data_of(line + seq!['\r' as u8, '\n' as u8] + rest) == shebang::data_of(line),
{
    lemma_first_line(line, rest);
    let returned = line.push('\r' as u8);
    assert forall|i: int| 0 <= i < returned.len() implies returned[i] != '\n' as u8 by {
        if i < line.len() {
            assert(returned[i] == line[i]);
            assert(line.contains(line[i]));
        }
    }
    lemma_first_line(returned, rest);
    assert(returned + seq!['\n' as u8] + rest =~= line + seq!['\r' as u8, '\n' as u8] + rest);
    if line.len() >= 2 {
        assert(returned[0] == line[0] && returned[1] == line[1]);
        assert(returned.skip(2) =~= line.skip(2).push('\r' as u8));
        lemma_carriage_return(line.skip(2));
    } else if line.len() == 1 {
        assert(returned[1] == '\r' as u8);
    }
}

/// There is no shebang in a file whose first two bytes are not `#!`.
pub proof fn shebang_needs_its_marker(buf: Seq<u8>)
    requires
        !(buf.len() >= 2 && buf[0] == '#' as u8 && buf[1] == '!' as u8),
    ensures
        shebang::data_of(buf) is None,
{
    if buf.contains('\n' as u8) {
        bytes::lemma_has_first(buf, '\n' as u8);
    }
}

/// No more than the start of a file is of interest.
pub proof fn only_the_head_counts(head: Seq<u8>, rest: Seq<u8>)
    requires
        head.len() >= path::HEAD_LEN,
    ensures
        path::interpreter_in(Some(head + rest)) == path::interpreter_in(Some(head)),
{
    let taken = head.take(path::HEAD_LEN as int);
    assert((head + rest).take(path::HEAD_LEN as int) =~= taken);
    assert(head.len() == path::HEAD_LEN ==> taken =~= head);
    assert(rest.len() == 0 ==> head + rest =~= head);
}

/// What a lookup ends with if `is_file` says which paths are those of files.
pub open spec fn outcome(lookup: LookupView, is_file: spec_fn(Seq<u8>) -> bool) -> Option<Seq<u8>>
    decreases path::pending(lookup).len(),
{
    match lookup {
        LookupView::Probe { candidate, rest } => outcome(
            path::after_probe(lookup, is_file(candidate)),
            is_file,
        ),
        LookupView::Found(path) => Some(path),
        LookupView::NotFound => None,
    }
}

/// A lookup finds the first of its candidates that is a file, and nothing if there is none.
pub proof fn lookup_finds_the_first_file(
    candidates: Seq<Seq<u8>>,
    is_file: spec_fn(Seq<u8>) -> bool,
)
    ensures
        match outcome(path::lookup_in(candidates), is_file) {
            Some(found) => exists|i: int|
                0 <= i < candidates.len() && #[trigger] candidates[i] == found && is_file(found)
                    && forall|j: int| 0 <= j < i ==> !is_file(#[trigger] candidates[j]),
            None => forall|i: int| 0 <= i < candidates.len() ==> !is_file(#[trigger] candidates[i]),
        },
    decreases candidates.len(),
{
    if candidates.len() > 0 {
        if is_file(candidates[0]) {
            assert(outcome(path::lookup_in(candidates), is_file) == Some(candidates[0])) by {
                reveal_with_fuel(outcome, 2);
            }
        } else {
            let rest = candidates.skip(1);
            lookup_finds_the_first_file(rest, is_file);
            assert(outcome(path::lookup_in(candidates), is_file) == outcome(
                path::lookup_in(rest),
                is_file,
            ));
            match outcome(path::lookup_in(rest), is_file) {
                Some(found) => {
                    let i = choose|i: int|
                        0 <= i < rest.len() && #[trigger] rest[i] == found && is_file(found)
                            && forall|j: int| 0 <= j < i ==> !is_file(#[trigger] rest[j]);
                    assert(candidates[i + 1] == found);
                    assert forall|j: int| 0 <= j < i + 1 implies !is_file(
                        #[trigger] candidates[j],
                    ) by {
                        if j > 0 {
                            assert(rest[j - 1] == candidates[j]);
                        }
                    }
                },
                None => {
                    assert forall|j: int| 0 <= j < candidates.len() implies !is_file(
                        #[trigger] candidates[j],
                    ) by {
                        if j > 0 {
                            assert(rest[j - 1] == candidates[j]);
                        }
                    }
                },
            }
        }
    }
}

/// The place of the first of `candidates` that is a file.
pub open spec fn first_file(
    candidates: Seq<Seq<u8>>,
    is_file: spec_fn(Seq<u8>) -> bool,
) -> Option<int>
    decreases candidates.len(),
{
    if candidates.len() == 0 {
        None
    } else if is_file(candidates[0]) {
        Some(0)
    } else {
        match first_file(candidates.skip(1), is_file) {
            Some(place) => Some(place + 1),
            None => None,
        }
    }
}

/// A lookup ends with the candidate at the place of the first file.
pub proof fn lookup_ends_at_the_first_file(
    candidates: Seq<Seq<u8>>,
    is_file: spec_fn(Seq<u8>) -> bool,
)
    ensures
        outcome(path::lookup_in(candidates), is_file) == match first_file(candidates, is_file) {
            Some(place) => Some(candidates[place]),
            None => None,
        },
        first_file(candidates, is_file) matches Some(place) ==> 0 <= place < candidates.len(),
    decreases candidates.len(),
{
    reveal_with_fuel(outcome, 2);
    if candidates.len() > 0 {
        lookup_ends_at_the_first_file(candidates.skip(1), is_file);
    }
}

/// The first file of one list is at the same place in another that has its files at the same places,
/// or else in what follows there.
proof fn lemma_first_file(
    all: Seq<Seq<u8>>,
    before: Seq<Seq<u8>>,
    after: Seq<Seq<u8>>,
    is_file: spec_fn(Seq<u8>) -> bool,
)
    requires
        all.len() == before.len() + after.len(),
        forall|i: int|
            0 <= i < before.len() ==> is_file(#[trigger] all[i]) == is_file(before[i]),
        forall|i: int|
            0 <= i < after.len() ==> is_file(all[before.len() + i]) == is_file(#[trigger] after[i]),
    ensures
        first_file(all, is_file) == match first_file(before, is_file) {
            Some(place) => Some(place),
            None => match first_file(after, is_file) {
                Some(place) => Some(before.len() + place),
                None => None,
            },
        },
    decreases all.len(),
{
    if before.len() > 0 {
        let tail = all.skip(1);
        assert forall|i: int| 0 <= i < before.skip(1).len() implies is_file(#[trigger] tail[i])
            == is_file(before.skip(1)[i]) by {
            assert(tail[i] == all[i + 1]);
        }
        assert forall|i: int| 0 <= i < after.len() implies is_file(
            tail[before.skip(1).len() + i],
        ) == is_file(#[trigger] after[i]) by {
            assert(tail[before.skip(1).len() + i] == all[before.len() + i]);
        }
        assert(is_file(all[0]) == is_file(before[0]));
        lemma_first_file(tail, before.skip(1), after, is_file);
    } else if after.len() > 0 {
        let tail = all.skip(1);
        let none = Seq::<Seq<u8>>::empty();
        assert forall|i: int| 0 <= i < after.skip(1).len() implies is_file(tail[none.len() + i])
            == is_file(#[trigger] after.skip(1)[i]) by {
            assert(after.skip(1)[i] == after[i + 1]);
            assert(tail[i] == all[before.len() + (i + 1)]);
        }
        assert(is_file(all[before.len() + 0int]) == is_file(after[0]));
        lemma_first_file(tail, none, after.skip(1), is_file);
    }
}

/// Of two lists of candidates in a row, the second counts only if there is no file in the first.
pub proof fn lookup_goes_on_if_nothing_was_found(
    first: Seq<Seq<u8>>,
    second: Seq<Seq<u8>>,
    is_file: spec_fn(Seq<u8>) -> bool,
)
    ensures
        outcome(path::lookup_in(first + second), is_file) == match outcome(
            path::lookup_in(first),
            is_file,
        ) {
            Some(found) => Some(found),
            None => outcome(path::lookup_in(second), is_file),
        },
    decreases first.len(),
{
    if first.len() == 0 {
        assert(first + second =~= second);
    } else {
        reveal_with_fuel(outcome, 2);
        assert((first + second)[0] == first[0]);
        assert((first + second).skip(1) =~= first.skip(1) + second);
        lookup_goes_on_if_nothing_was_found(first.skip(1), second, is_file);
    }
}

/// No lookup is performed if a slash or backslash is in the command.
pub proof fn path_is_not_looked_up(
    command: Seq<u8>,
    path_value: Seq<u8>,
    windows: bool,
    candidates: Seq<Seq<u8>>,
    is_file: spec_fn(Seq<u8>) -> bool,
)
    requires
        bytes::has_separator(command),
        path::are_candidates(command, path_value, windows, candidates),
    ensures
        outcome(path::lookup_in(candidates), is_file) is None,
{
}

/// Attempts are made root by root, and name by name in each of them.
proof fn lemma_attempts(roots: Seq<Seq<u8>>, names: Seq<Seq<u8>>, i: int, j: int)
    requires
        0 <= i < roots.len(),
        0 <= j < names.len(),
    ensures
        path::attempts(roots, names).len() == roots.len() * names.len(),
        0 <= i * names.len() + j < path::attempts(roots, names).len(),
        path::attempts(roots, names)[i * names.len() + j] == (roots[i], names[j]),
    decreases roots.len(),
{
    lemma_attempts_len(roots, names);
    lemma_attempts_len(roots.drop_last(), names);
    let first = path::attempts(roots.drop_last(), names);
    assert(0 <= i * names.len() && i * names.len() + j < roots.len() * names.len())
        by (nonlinear_arith)
        requires
            0 <= i < roots.len(),
            0 <= j < names.len(),
    ;
    if i < roots.len() - 1 {
        lemma_attempts(roots.drop_last(), names, i, j);
        assert(path::attempts(roots, names)[i * names.len() + j] == first[i * names.len() + j]);
    } else {
        let last = names.map_values(|name: Seq<u8>| (roots.last(), name));
        assert(first.len() == i * names.len());
        assert(path::attempts(roots, names)[first.len() + j] == last[j]);
    }
}

/// A path without its tail ends with neither a slash nor a reference to the current directory. If there
/// are no backslashes in it, this is the same on any platform.
proof fn lemma_without_tail(path: Seq<u8>)
    requires
        !path.contains('\\' as u8),
    ensures
        ({
            let end = path::without_tail(path, false, false);
            &&& end == path::without_tail(path, true, false)
            &&& end.len() <= path.len()
            &&& end == path.take(end.len() as int)
            &&& end.len() > 0 ==> end.last() != '/' as u8
            &&& end.len() >= 2 && end.last() == '.' as u8 ==> end[end.len() - 2] != '/' as u8
        }),
    decreases path.len(),
{
    let end = path::without_tail(path, false, false);
    assert forall|i: int| 0 <= i < path.len() implies #[trigger] path[i] != '\\' as u8 by {
        assert(path.contains(path[i]));
    }
    if path.len() > 0 && path.last() == '/' as u8 {
        lemma_without_tail(path.drop_last());
    } else if path.len() >= 2 && path.last() == '.' as u8 && path[path.len() - 2] == '/' as u8 {
        lemma_without_tail(path.take(path.len() - 2));
    }
    assert(end =~= path.take(end.len() as int));
}

/// Whether a path that is written with single slashes is that of an executable doesn't depend on the
/// platform: without the slashes and the dots that it may end with, it ends with `.exe`, and there is
/// more to its last name than that.
pub proof fn slash_path_is_an_executable_or_not(path: Seq<u8>)
    requires
        !path.contains('\\' as u8),
        !path::has_double_separator(path),
        path::has_drive(path) && path.len() > 2 ==> path[2] != '.' as u8,
    ensures
        ({
            let end = path::end_of(path, false);
            path::is_exe_path(path) <==> {
                &&& path::ends_with(end, path::dot_exe())
                &&& end.len() > 4
                &&& end[end.len() - 5] != '/' as u8
            }
        }),
        path::is_no_exe_path(path) <==> !path::is_exe_path(path),
{
    let end = path::end_of(path, false);
    assert(path.len() > 0 ==> path.contains(path[0]));
    lemma_without_tail(path);
    assert forall|i: int| 0 <= i < end.len() implies bytes::is_separator(#[trigger] end[i]) == (
    end[i] == '/' as u8) by {
        assert(end[i] == path[i]);
        assert(path.contains(path[i]));
    }
    assert forall|i: int| 0 <= i < end.len() implies end[i] == #[trigger] path[i] by {}
    if path::ends_with(end, path::dot_exe()) {
        path::lemma_exe_dot(end);
        let dot = end.len() - 4;
        assert(path::is_last_dot(end, dot));
        let tail = end.skip(dot);
        assert(tail[1] == end[dot + 1] && tail[2] == end[dot + 2] && tail[3] == end[dot + 3]);
    }
}

/// Whether a path on Windows is that of an executable is always known, unless it is taken verbatim,
/// starts with two separators, or has a dot right after its drive. Separators at its end make no
/// difference, and it doesn't matter which ones are used.
pub proof fn windows_path_is_an_executable_or_not(path: Seq<u8>)
    requires
        !path::is_verbatim(path),
        !path::has_double_separator(path),
        path::has_drive(path) && path.len() > 2 ==> path[2] != '.' as u8,
    ensures
        ({
            let end = path::end_of(path::windows_form(path), false);
            path::is_exe_path(path::windows_form(path)) <==> {
                &&& path::ends_with(end, path::dot_exe())
                &&& end.len() > 4
                &&& end[end.len() - 5] != '/' as u8
            }
        }),
        path::is_no_exe_path(path::windows_form(path)) <==> !path::is_exe_path(
            path::windows_form(path),
        ),
{
    let form = path::windows_form(path);
    assert forall|i: int| 0 <= i < form.len() implies #[trigger] form[i] != '\\' as u8
        && bytes::is_separator(form[i]) == bytes::is_separator(path[i]) by {
        assert(path[i] != '\\' as u8 ==> form[i] == path[i]);
    }
    assert(form.len() >= 2 ==> bytes::is_separator(form[0]) == bytes::is_separator(path[0])
        && bytes::is_separator(form[1]) == bytes::is_separator(path[1]));
    slash_path_is_an_executable_or_not(form);
}

/// On Windows, a file has the interpreter that its first bytes tell about just if its path is not that
/// of an executable, and none otherwise. Elsewhere, the path doesn't matter.
pub proof fn interpreter_depends_on_the_extension(
    executable: Seq<u8>,
    head: Option<Seq<u8>>,
    windows: bool,
    found: Option<DataView>,
)
    requires
        windows ==> path::is_exe_path(path::windows_form(executable)) || path::is_no_exe_path(
            path::windows_form(executable),
        ),
        path::is_interpreter_of(executable, head, windows, found),
    ensures
        found == (if windows && path::is_exe_path(path::windows_form(executable)) {
            None
        } else {
            path::interpreter_in(head)
        }),
{
}

/// Whether a name that has no drive is that of an executable doesn't depend on the platform: it ends
/// with `.exe`, and there is more to it than that.
pub proof fn plain_name_is_an_executable_or_not(command: Seq<u8>)
    requires
        path::is_name(command),
        !path::has_drive(command),
    ensures
        path::is_exe_path(command) <==> command.len() > 4 && path::ends_with(
            command,
            path::dot_exe(),
        ),
        path::is_no_exe_path(command) <==> !path::is_exe_path(command),
{
    assert forall|i: int| 0 <= i < command.len() implies #[trigger] command[i] != '\\' as u8
        && command[i] != '/' as u8 by {
        assert(!bytes::is_separator(command[i]));
    }
    slash_path_is_an_executable_or_not(command);
    assert(path::end_of(command, false) == command);
}

/// The directories of `PATH` are searched from left to right. In each of them the executable is
/// looked at first, by the name of the command with `.exe` appended, and the command as it is comes
/// after it.
pub proof fn executables_are_preferred(
    command: Seq<u8>,
    path_value: Seq<u8>,
    windows: bool,
    candidates: Seq<Seq<u8>>,
    root: int,
)
    requires
        path::is_looked_up(command, windows),
        path::is_no_exe_path(command),
        path::are_candidates(command, path_value, windows, candidates),
        0 <= root < path::roots_of(path_value).len(),
    ensures
        candidates.len() == 2 * path::roots_of(path_value).len(),
        path::is_join(
            path::roots_of(path_value)[root],
            command + path::dot_exe(),
            candidates[2 * root],
        ),
        path::is_join(path::roots_of(path_value)[root], command, candidates[2 * root + 1]),
{
    let names = path::file_names(command, false);
    assert(path::are_paths_of(command, false, path::roots_of(path_value), candidates));
    lemma_attempts(path::roots_of(path_value), names, root, 0);
    lemma_attempts(path::roots_of(path_value), names, root, 1);
    let count = path::roots_of(path_value).len();
    assert(count * names.len() == 2 * count && root * names.len() == 2 * root)
        by (nonlinear_arith)
        requires
            names.len() == 2,
    ;
}

/// The name of an executable is looked up as it is, in the directories of `PATH` from left to right.
pub proof fn executable_stands_for_itself(
    command: Seq<u8>,
    path_value: Seq<u8>,
    windows: bool,
    candidates: Seq<Seq<u8>>,
    root: int,
)
    requires
        path::is_looked_up(command, windows),
        path::is_exe_path(command),
        path::are_candidates(command, path_value, windows, candidates),
        0 <= root < path::roots_of(path_value).len(),
    ensures
        candidates.len() == path::roots_of(path_value).len(),
        path::is_join(path::roots_of(path_value)[root], command, candidates[root]),
{
    let names = path::file_names(command, true);
    assert(path::are_paths_of(command, true, path::roots_of(path_value), candidates));
    lemma_attempts(path::roots_of(path_value), names, root, 0);
    let count = path::roots_of(path_value).len();
    assert(count * names.len() == count && root * names.len() == root) by (nonlinear_arith)
        requires
            names.len() == 1,
    ;
}

/// An empty directory in `PATH` is the current one: the path of a file in it is its name alone.
pub proof fn empty_directory_adds_nothing(name: Seq<u8>, path: Seq<u8>)
    requires
        path::is_join(seq![], name, path),
    ensures
        path == name || path == path::as_text(name, path::lossy_text_of(name)),
        valid_utf8(name) ==> path == name,
{
    reveal_with_fuel(valid_utf8, 1);
    assert(Seq::<u8>::empty() + name =~= name);
    assert(Seq::<u8>::empty() + path::as_text(name, path::lossy_text_of(name)) =~= path::as_text(name, path::lossy_text_of(name)));
}

/// The file that is looked at in a directory is in that directory: the path starts with the
/// directory, ends with the name, and holds at most one separator in between.
pub proof fn candidate_is_in_its_directory(root: Seq<u8>, name: Seq<u8>, path: Seq<u8>)
    requires
        valid_utf8(root),
        valid_utf8(name),
        !path::has_drive(name),
        path::is_verbatim(root) ==> path::is_normal(root),
        path::is_join(root, name, path),
    ensures
        path.take(root.len() as int) == root,
        path.skip(path.len() - name.len()) == name,
        root.len() + name.len() <= path.len() <= root.len() + name.len() + 1,
        path.len() > root.len() + name.len() ==> bytes::is_separator(path[root.len() as int]),
        root.len() > 0 && !(root.len() == 2 && path::has_drive(root)) ==> path::ends_with_file(
            path,
            name,
        ),
{
    assert(path.take(root.len() as int) =~= root);
    assert(path.skip(path.len() - name.len()) =~= name);
    if path == root + name && root.len() > 0 {
        assert(path[root.len() - 1] == root.last());
    }
}

/// What is tried in two lists of directories in a row is what is tried in the first, and then what is
/// tried in the second.
pub proof fn attempts_in_more_directories(first: Seq<Seq<u8>>, second: Seq<Seq<u8>>, names: Seq<Seq<u8>>)
    ensures
        path::attempts(first + second, names) == path::attempts(first, names) + path::attempts(
            second,
            names,
        ),
    decreases second.len(),
{
    if second.len() == 0 {
        assert(first + second =~= first);
        assert(path::attempts(first, names) + path::attempts(second, names) =~= path::attempts(
            first,
            names,
        ));
    } else {
        let all = first + second;
        assert(all.drop_last() =~= first + second.drop_last());
        assert(all.last() == second.last());
        attempts_in_more_directories(first, second.drop_last(), names);
        let last = names.map_values(|name: Seq<u8>| (second.last(), name));
        assert(path::attempts(all, names) =~= path::attempts(first, names) + path::attempts(
            second,
            names,
        ));
    }
}

/// The directories of two values of `PATH` that are put together with a semicolon are those of the
/// first and then those of the second.
pub proof fn roots_of_a_longer_path(first: Seq<u8>, second: Seq<u8>)
    ensures
        path::roots_of(first + seq![';' as u8] + second) == path::roots_of(first) + path::roots_of(
            second,
        ),
    decreases first.len(),
{
    let all = first + seq![';' as u8] + second;
    if first.contains(';' as u8) {
        bytes::lemma_has_first(first, ';' as u8);
        let end = bytes::first_of(first, ';' as u8)->0;
        assert forall|i: int| 0 <= i < end implies all[i] != ';' as u8 by {
            assert(all[i] == first[i]);
        }
        assert(all[end] == first[end]);
        bytes::lemma_first_of(all, ';' as u8, end);
        let rest = first.skip(end + 1);
        roots_of_a_longer_path(rest, second);
        assert(all.take(end) =~= first.take(end));
        assert(all.skip(end + 1) =~= rest + seq![';' as u8] + second);
        assert(path::roots_of(all) =~= path::roots_of(first) + path::roots_of(second));
    } else {
        let end = first.len() as int;
        assert forall|i: int| 0 <= i < end implies all[i] != ';' as u8 by {
            assert(all[i] == first[i]);
            assert(first.contains(first[i]));
        }
        assert(all[end] == ';' as u8);
        bytes::lemma_first_of(all, ';' as u8, end);
        assert(all.take(end) =~= first);
        assert(all.skip(end + 1) =~= second);
    }
}

/// A command is looked up in two values of `PATH` that are put together with a semicolon just like in
/// the one and then, if nothing was found there, in the other. So nothing that comes later in `PATH`
/// changes what is found before it.
pub proof fn longer_path_is_searched_in_turn(
    command: Seq<u8>,
    first: Seq<u8>,
    second: Seq<u8>,
    windows: bool,
    candidates: Seq<Seq<u8>>,
    is_file: spec_fn(Seq<u8>) -> bool,
)
    requires
        path::are_candidates(command, first + seq![';' as u8] + second, windows, candidates),
    ensures
        exists|before: Seq<Seq<u8>>, after: Seq<Seq<u8>>|
            {
                &&& candidates == before + after
                &&& #[trigger] path::are_candidates(command, first, windows, before)
                &&& #[trigger] path::are_candidates(command, second, windows, after)
                &&& outcome(path::lookup_in(candidates), is_file) == match outcome(
                    path::lookup_in(before),
                    is_file,
                ) {
                    Some(found) => Some(found),
                    None => outcome(path::lookup_in(after), is_file),
                }
            },
{
    let all = first + seq![';' as u8] + second;
    if path::is_looked_up(command, windows) {
        let exe = choose|exe: bool|
            {
                &&& path::is_exe_path(command) ==> exe
                &&& path::is_no_exe_path(command) ==> !exe
                &&& #[trigger] path::are_paths_of(command, exe, path::roots_of(all), candidates)
            };
        let names = path::file_names(command, exe);
        roots_of_a_longer_path(first, second);
        attempts_in_more_directories(path::roots_of(first), path::roots_of(second), names);
        let some = path::attempts(path::roots_of(first), names);
        let more = path::attempts(path::roots_of(second), names);
        let count = some.len() as int;
        let before = candidates.take(count);
        let after = candidates.skip(count);
        assert(candidates =~= before + after);
        assert forall|i: int| 0 <= i < before.len() implies path::is_join(
            some[i].0,
            some[i].1,
            #[trigger] before[i],
        ) by {
            assert(candidates[i] == before[i] && (some + more)[i] == some[i]);
        }
        assert forall|i: int| 0 <= i < after.len() implies path::is_join(
            more[i].0,
            more[i].1,
            #[trigger] after[i],
        ) by {
            assert(candidates[i + count] == after[i] && (some + more)[i + count] == more[i]);
        }
        assert(path::are_paths_of(command, exe, path::roots_of(first), before));
        assert(path::are_paths_of(command, exe, path::roots_of(second), after));
        assert(path::are_candidates(command, first, windows, before));
        assert(path::are_candidates(command, second, windows, after));
        lookup_goes_on_if_nothing_was_found(before, after, is_file);
    } else {
        assert(candidates =~= candidates + Seq::<Seq<u8>>::empty());
        assert(path::are_candidates(command, first, windows, candidates));
        assert(path::are_candidates(command, second, windows, seq![]));
        lookup_goes_on_if_nothing_was_found(candidates, seq![], is_file);
    }
}

/// A hit is never changed by appending directories to `PATH`: of three lookups, in a longer `PATH` and
/// in the two parts that it is put together from, the first finds its file at the same place as the
/// second, or else as the third. All that is asked of the paths is that those at the same place are
/// either all files or none, whatever separator they were put together with.
pub proof fn appended_directories_change_no_place(
    command: Seq<u8>,
    first: Seq<u8>,
    second: Seq<u8>,
    windows: bool,
    all: Seq<Seq<u8>>,
    before: Seq<Seq<u8>>,
    after: Seq<Seq<u8>>,
    is_file: spec_fn(Seq<u8>) -> bool,
)
    requires
        path::is_exe_path(command) || path::is_no_exe_path(command),
        path::are_candidates(command, first + seq![';' as u8] + second, windows, all),
        path::are_candidates(command, first, windows, before),
        path::are_candidates(command, second, windows, after),
        forall|i: int|
            0 <= i < before.len() ==> is_file(#[trigger] all[i]) == is_file(before[i]),
        forall|i: int|
            0 <= i < after.len() ==> is_file(all[before.len() + i]) == is_file(#[trigger] after[i]),
    ensures
        all.len() == before.len() + after.len(),
        first_file(all, is_file) == match first_file(before, is_file) {
            Some(place) => Some(place),
            None => match first_file(after, is_file) {
                Some(place) => Some(before.len() + place),
                None => None,
            },
        },
        (outcome(path::lookup_in(all), is_file) is Some) == (outcome(
            path::lookup_in(before),
            is_file,
        ) is Some || outcome(path::lookup_in(after), is_file) is Some),
{
    if path::is_looked_up(command, windows) {
        let exe = path::is_exe_path(command);
        let names = path::file_names(command, exe);
        let roots = path::roots_of(first + seq![';' as u8] + second);
        assert(path::are_paths_of(command, exe, roots, all));
        assert(path::are_paths_of(command, exe, path::roots_of(first), before));
        assert(path::are_paths_of(command, exe, path::roots_of(second), after));
        roots_of_a_longer_path(first, second);
        attempts_in_more_directories(path::roots_of(first), path::roots_of(second), names);
    }
    lemma_first_file(all, before, after, is_file);
    lookup_ends_at_the_first_file(all, is_file);
    lookup_ends_at_the_first_file(before, is_file);
    lookup_ends_at_the_first_file(after, is_file);
}

/// What is before and after an ASCII character in a UTF-8 text is UTF-8 as well.
proof fn lemma_utf8_parts(s: Seq<u8>, at: int)
    requires
        valid_utf8(s),
        0 <= at < s.len(),
        s[at] < 0x80,
    ensures
        valid_utf8(s.take(at)),
        valid_utf8(s.skip(at + 1)),
{
    is_char_boundary_iff_not_is_continuation_byte(s, at);
    valid_utf8_split(s, at);
    let tail = s.subrange(at, s.len() as int);
    assert(s.take(at) =~= s.subrange(0, at));
    assert(tail[0] == s[at]);
    assert(pop_first_scalar(tail) =~= s.skip(at + 1));
}

/// The directories of a `PATH` that is UTF-8 are so, too.
pub proof fn roots_of_text_are_text(path_value: Seq<u8>)
    requires
        valid_utf8(path_value),
    ensures
        forall|i: int|
            0 <= i < path::roots_of(path_value).len() ==> valid_utf8(
                #[trigger] path::roots_of(path_value)[i],
            ),
    decreases path_value.len(),
{
    if let Some(end) = bytes::first_of(path_value, ';' as u8) {
        bytes::lemma_has_first(path_value, ';' as u8);
        lemma_utf8_parts(path_value, end);
        let rest = path_value.skip(end + 1);
        roots_of_text_are_text(rest);
        let roots = path::roots_of(path_value);
        assert forall|i: int| 0 <= i < roots.len() implies valid_utf8(#[trigger] roots[i]) by {
            if i > 0 {
                assert(roots[i] == path::roots_of(rest)[i - 1]);
            }
        }
    }
}

/// A text with `.exe` appended is a text.
pub(crate) proof fn lemma_exe_is_text(command: Seq<u8>)
    requires
        valid_utf8(command),
    ensures
        valid_utf8(command + path::dot_exe()),
{
    assert(valid_utf8(path::dot_exe())) by {
        reveal_with_fuel(valid_utf8, 5);
        assert(pop_first_scalar(path::dot_exe()) =~= seq!['e' as u8, 'x' as u8, 'e' as u8]);
        assert(pop_first_scalar(seq!['e' as u8, 'x' as u8, 'e' as u8]) =~= seq![
            'x' as u8,
            'e' as u8,
        ]);
        assert(pop_first_scalar(seq!['x' as u8, 'e' as u8]) =~= seq!['e' as u8]);
        assert(pop_first_scalar(seq!['e' as u8]) =~= seq![]);
    }
    valid_utf8_concat(command, path::dot_exe());
}

/// The paths to look at for `command` in `roots`, as they are on Windows or elsewhere.
pub open spec fn paths_on(
    command: Seq<u8>,
    exe: bool,
    roots: Seq<Seq<u8>>,
    windows: bool,
) -> Seq<Seq<u8>> {
    path::attempts(roots, path::file_names(command, exe)).map_values(
        |attempt: (Seq<u8>, Seq<u8>)| path::joined(attempt.0, attempt.1, windows),
    )
}

/// Attempts are made with the given directories and names only.
proof fn lemma_attempts_are_of(roots: Seq<Seq<u8>>, names: Seq<Seq<u8>>, i: int)
    requires
        0 <= i < path::attempts(roots, names).len(),
    ensures
        roots.contains(path::attempts(roots, names)[i].0),
        names.contains(path::attempts(roots, names)[i].1),
    decreases roots.len(),
{
    let before = path::attempts(roots.drop_last(), names);
    let last = names.map_values(|name: Seq<u8>| (roots.last(), name));
    if i < before.len() {
        lemma_attempts_are_of(roots.drop_last(), names, i);
        assert(path::attempts(roots, names)[i] == before[i]);
        let at = choose|at: int|
            0 <= at < roots.drop_last().len() && roots.drop_last()[at] == before[i].0;
        assert(roots[at] == before[i].0);
    } else {
        assert(path::attempts(roots, names)[i] == last[i - before.len()]);
        assert(names[i - before.len()] == last[i - before.len()].1);
        assert(roots[roots.len() - 1] == last[i - before.len()].0);
    }
}

/// The paths to look at for a plain name are, in this order, those that the directories of `PATH` and
/// the names that the command stands for make up. Nothing but the separator depends on the platform.
pub proof fn candidates_are_those_of_a_platform(
    command: Seq<u8>,
    path_value: Seq<u8>,
    windows: bool,
    candidates: Seq<Seq<u8>>,
)
    requires
        path::is_name(command),
        !path::has_drive(command),
        valid_utf8(command),
        valid_utf8(path_value),
        forall|i: int|
            0 <= i < path::roots_of(path_value).len() && path::is_verbatim(
                #[trigger] path::roots_of(path_value)[i],
            ) ==> path::is_normal(path::roots_of(path_value)[i]),
        path::are_candidates(command, path_value, windows, candidates),
    ensures
        ({
            let exe = command.len() > 4 && path::ends_with(command, path::dot_exe());
            let here = paths_on(command, exe, path::roots_of(path_value), false);
            let there = paths_on(command, exe, path::roots_of(path_value), true);
            &&& candidates.len() == here.len() && candidates.len() == there.len()
            &&& forall|i: int|
                0 <= i < candidates.len() ==> #[trigger] candidates[i] == here[i] || candidates[i]
                    == there[i]
        }),
{
    let exe = command.len() > 4 && path::ends_with(command, path::dot_exe());
    let roots = path::roots_of(path_value);
    let names = path::file_names(command, exe);
    let attempts = path::attempts(roots, names);
    plain_name_is_an_executable_or_not(command);
    roots_of_text_are_text(path_value);
    lemma_exe_is_text(command);
    assert(path::are_paths_of(command, exe, roots, candidates));
    assert(!path::has_drive(command + path::dot_exe())) by {
        let name = command + path::dot_exe();
        assert(name[0] == command[0]);
        if command.len() >= 2 {
            assert(name[1] == command[1]);
        } else {
            assert(name[1] == path::dot_exe()[0]);
        }
    }
    let here = paths_on(command, exe, roots, false);
    let there = paths_on(command, exe, roots, true);
    assert forall|i: int| 0 <= i < candidates.len() implies #[trigger] candidates[i] == here[i]
        || candidates[i] == there[i] by {
        lemma_attempts_are_of(roots, names, i);
        assert(here[i] == path::joined(attempts[i].0, attempts[i].1, false));
        assert(there[i] == path::joined(attempts[i].0, attempts[i].1, true));
        assert(path::is_join(attempts[i].0, attempts[i].1, candidates[i]));
    }
}

/// On any one platform, a hit is never changed by appending directories to `PATH`: what is found in a
/// longer `PATH` is what is found in its first part, or else in the second.
pub proof fn appended_directories_change_no_hit(
    command: Seq<u8>,
    exe: bool,
    first: Seq<u8>,
    second: Seq<u8>,
    windows: bool,
    is_file: spec_fn(Seq<u8>) -> bool,
)
    ensures
        ({
            let roots = path::roots_of(first + seq![';' as u8] + second);
            let found = outcome(
                path::lookup_in(paths_on(command, exe, path::roots_of(first), windows)),
                is_file,
            );
            outcome(path::lookup_in(paths_on(command, exe, roots, windows)), is_file) == match found {
                Some(found) => Some(found),
                None => outcome(
                    path::lookup_in(paths_on(command, exe, path::roots_of(second), windows)),
                    is_file,
                ),
            }
        }),
{
    let names = path::file_names(command, exe);
    roots_of_a_longer_path(first, second);
    attempts_in_more_directories(path::roots_of(first), path::roots_of(second), names);
    let before = paths_on(command, exe, path::roots_of(first), windows);
    let after = paths_on(command, exe, path::roots_of(second), windows);
    let roots = path::roots_of(first + seq![';' as u8] + second);
    assert(paths_on(command, exe, roots, windows) =~= before + after);
    lookup_goes_on_if_nothing_was_found(before, after, is_file);
}

/// Each name is tried in each root.
proof fn lemma_attempts_len(roots: Seq<Seq<u8>>, names: Seq<Seq<u8>>)
    ensures
        path::attempts(roots, names).len() == roots.len() * names.len(),
    decreases roots.len(),
{
    if roots.len() > 0 {
        lemma_attempts_len(roots.drop_last(), names);
        assert((roots.len() - 1) * names.len() + names.len() == roots.len() * names.len())
            by (nonlinear_arith);
    } else {
        assert(0 * names.len() == 0);
    }
}

/// The directories as they stand in `PATH`.
pub open spec fn joined_roots(roots: Seq<Seq<u8>>) -> Seq<u8>
    decreases roots.len(),
{
    if roots.len() == 0 {
        seq![]
    } else if roots.len() == 1 {
        roots[0]
    } else {
        roots[0] + seq![';' as u8] + joined_roots(roots.skip(1))
    }
}

/// Nothing of `PATH` is lost when it is split, but for the semicolons.
pub proof fn roots_make_up_the_path(path_value: Seq<u8>)
    ensures
        path::roots_of(path_value).len() > 0,
        joined_roots(path::roots_of(path_value)) == path_value,
        forall|i: int|
            0 <= i < path::roots_of(path_value).len() ==> !(#[trigger] path::roots_of(
                path_value,
            )[i]).contains(';' as u8),
    decreases path_value.len(),
{
    let roots = path::roots_of(path_value);
    match bytes::first_of(path_value, ';' as u8) {
        Some(end) => {
            bytes::lemma_has_first(path_value, ';' as u8);
            let rest = path_value.skip(end + 1);
            roots_make_up_the_path(rest);
            assert(roots.skip(1) =~= path::roots_of(rest));
            assert(roots[0] + seq![';' as u8] + rest =~= path_value);
            assert forall|i: int| 0 <= i < roots.len() implies !(#[trigger] roots[i]).contains(
                ';' as u8,
            ) by {
                if i > 0 {
                    assert(roots[i] == path::roots_of(rest)[i - 1]);
                }
            }
        },
        None => {},
    }
}

} // verus!
