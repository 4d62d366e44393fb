//! The process to spawn for a prepared command.

use crate::bytes;
use crate::context;
use crate::context::Variables;
use crate::path::{Script, ScriptView};
use crate::prepare;
use crate::prepare::{Prepare, PrepareView, Stdio};
use crate::shell;
use vstd::prelude::*;
use vstd::utf8::*;

verus! {

/// The flag for the creation of a process on Windows that keeps it from opening a console window.
pub const CREATE_NO_WINDOW: u32 = 0x0800_0000;

/// What has to be known of the place where a command is run.
#[derive(Debug)]
pub struct Host {
    /// Whether this is Windows.
    pub windows: bool,
    /// The shell to use if there is no other one configured.
    pub shell: Vec<u8>,
    /// How to run the command if it is to be run directly but is found to be a script.
    /// This is for Windows only, as it is the kernel that does this elsewhere.
    pub script: Option<Script>,
}

/// What [`Host`] holds.
#[verifier::ext_equal]
pub struct HostView {
    pub windows: bool,
    pub shell: Seq<u8>,
    pub script: Option<ScriptView>,
}

impl View for Host {
    type V = HostView;

    open spec fn view(&self) -> HostView {
        HostView {
            windows: self.windows,
            shell: self.shell@,
            script: match self.script {
                Some(script) => Some(script@),
                None => None,
            },
        }
    }
}

/// All that is needed to spawn a process.
#[derive(Debug)]
pub struct Command {
    /// The program to run.
    pub program: Vec<u8>,
    /// The arguments to run it with, not including the program itself.
    pub args: Vec<Vec<u8>>,
    /// The variables to set in addition to those of the parent process, one after the other.
    pub env: Variables,
    /// What standard input is connected to.
    pub stdin: Stdio,
    /// What standard output is connected to.
    pub stdout: Stdio,
    /// What standard error is connected to.
    pub stderr: Stdio,
    /// The flags to create the process with on Windows.
    pub creation_flags: u32,
}

/// What [`Command`] holds.
#[verifier::ext_equal]
pub struct CommandView {
    pub program: Seq<u8>,
    pub args: Seq<Seq<u8>>,
    pub env: Seq<(Seq<u8>, Seq<u8>)>,
    pub stdin: Stdio,
    pub stdout: Stdio,
    pub stderr: Stdio,
    pub creation_flags: u32,
}

impl View for Command {
    type V = CommandView;

    open spec fn view(&self) -> CommandView {
        CommandView {
            program: self.program@,
            args: bytes::views(self.args@),
            env: context::variables(self.env@),
            stdin: self.stdin,
            stdout: self.stdout,
            stderr: self.stderr,
            creation_flags: self.creation_flags,
        }
    }
}

/// ` "$@"`, which makes a script pass its arguments on.
pub open spec fn pass_arguments() -> Seq<u8> {
    seq![' ' as u8, '"' as u8, '$' as u8, '@' as u8, '"' as u8]
}

/// Whether the command can be quoted, for which it has to be text on Windows.
pub open spec fn can_quote(command: Seq<u8>, windows: bool) -> bool {
    !windows || valid_utf8(command)
}

/// The script that a shell is to run for `command`. It is quoted if this is wanted. If there are
/// arguments, it is extended to pass them on, but one that mentions them already is left as it is.
pub open spec fn script_for(
    command: Seq<u8>,
    has_args: bool,
    quote_command: bool,
    windows: bool,
) -> Seq<u8> {
    let program = if quote_command && can_quote(command, windows) {
        shell::single_quoted(command)
    } else {
        command
    };
    if !has_args {
        program
    } else if valid_utf8(command) && shell::mentions_arguments(command) {
        command
    } else {
        program + pass_arguments()
    }
}

/// The script that a shell is to run for `prep`.
pub open spec fn shell_script(prep: PrepareView, windows: bool) -> Seq<u8> {
    script_for(prep.command, prep.args.len() > 0, prep.quote_command, windows)
}

/// The shell to use.
pub open spec fn shell_program(prep: PrepareView, host: HostView) -> Seq<u8> {
    match prep.shell_program {
        Some(program) => program,
        None => host.shell,
    }
}

/// The program and the arguments that come before those of `prep`, if its command is split into
/// `words` for lack of a need for a shell.
pub open spec fn invocation(
    prep: PrepareView,
    host: HostView,
    words: Option<Seq<Seq<char>>>,
) -> (Seq<u8>, Seq<Seq<u8>>) {
    if prep.use_shell {
        match words {
            Some(words) => (encode_utf8(words[0]), bytes::encoded(words.skip(1))),
            None => (
                shell_program(prep, host),
                seq![
                    seq!['-' as u8, 'c' as u8],
                    shell_script(prep, host.windows),
                    seq!['-' as u8, '-' as u8],
                ],
            ),
        }
    } else {
        match host.script {
            Some(script) if host.windows => (
                script.shebang.interpreter,
                (if script.absolute {
                    script.shebang.args
                } else {
                    seq![]
                }) + seq![prep.command],
            ),
            _ => (prep.command, seq![]),
        }
    }
}

/// All variables to set.
pub open spec fn all_variables(prep: PrepareView) -> Seq<(Seq<u8>, Seq<u8>)> {
    match prep.context {
        Some(context) => prep.env + context::context_variables(context),
        None => prep.env,
    }
}

/// What standard error is connected to. The context has the last word.
pub open spec fn stderr_of(prep: PrepareView) -> Stdio {
    match prep.context {
        Some(context) => match context.stderr {
            Some(true) => Stdio::Inherit,
            Some(false) => Stdio::Null,
            None => prep.stderr,
        },
        None => prep.stderr,
    }
}

/// The process to spawn for `prep`, if its command is split into `words`.
pub open spec fn command_from(
    prep: PrepareView,
    host: HostView,
    words: Option<Seq<Seq<char>>>,
) -> CommandView {
    CommandView {
        program: invocation(prep, host, words).0,
        args: invocation(prep, host, words).1 + prep.args,
        env: all_variables(prep),
        stdin: prep.stdin,
        stdout: prep.stdout,
        stderr: stderr_of(prep),
        creation_flags: if host.windows {
            CREATE_NO_WINDOW
        } else {
            0
        },
    }
}

/// The process to spawn for `prep`.
pub open spec fn command_of(prep: PrepareView, host: HostView) -> CommandView {
    command_from(prep, host, prepare::manual_words(prep))
}

/// Whether there is a program to run: a command that is split into words has at least one. On
/// Windows, a command that is looked into to see if it can be split has to be text, and so has the
/// namespace of the context.
pub open spec fn is_runnable(prep: PrepareView, windows: bool) -> bool {
    &&& prepare::can_split(prep) ==> !shell::all_blank(prep.command)
    &&& windows && prep.use_shell && prep.allow_manual_arg_splitting ==> valid_utf8(prep.command)
    &&& windows ==> (prep.context matches Some(context) ==> (
    context.ref_namespace matches Some(namespace) ==> valid_utf8(namespace)))
}

/// The optional words that `words` holds.
pub open spec fn optional_words(words: Option<Vec<String>>) -> Option<Seq<Seq<char>>> {
    match words {
        Some(words) => Some(bytes::word_views(words@)),
        None => None,
    }
}

/// Whether `line` holds nothing that could be a word.
fn is_all_blank(line: &[u8]) -> (blank: bool)
    ensures
        blank == shell::all_blank(line@),
{
    let mut i: usize = 0;
    while i < line.len()
        invariant
            i <= line@.len(),
            forall|j: int| 0 <= j < i ==> shell::is_blank(#[trigger] line@[j]),
        decreases line@.len() - i,
    {
        if line[i] != ' ' as u8 && line[i] != '\t' as u8 && line[i] != '\n' as u8 {
            return false;
        }
        i = i + 1;
    }
    true
}

impl Prepare {
    /// Whether there is a program to run, on Windows or elsewhere as `windows` says. There is none in
    /// a blank command that is to be split into words. On Windows, a command can't be split and a
    /// namespace can't be passed on if they aren't text.
    pub fn is_runnable(&self, windows: bool) -> (runnable: bool)
        ensures
            runnable == self::is_runnable(self@, windows),
    {
        if windows {
            if let Some(context) = &self.context {
                if let Some(namespace) = &context.ref_namespace {
                    if !bytes::is_utf8(namespace.as_slice()) {
                        return false;
                    }
                }
            }
        }
        if !self.use_shell || !self.allow_manual_arg_splitting {
            return true;
        }
        if !bytes::is_utf8(self.command.as_slice()) {
            return !windows;
        }
        shell::contains_scripting(self.command.as_slice()) || !is_all_blank(self.command.as_slice())
    }
}

/// The script that a shell is to run to execute `command` with or without arguments.
fn make_script(command: Vec<u8>, has_args: bool, quote_command: bool, windows: bool) -> (script: Vec<
    u8,
>)
    ensures
        script@ == script_for(command@, has_args, quote_command, windows),
{
    let utf8 = bytes::is_utf8(command.as_slice());
    if has_args && utf8 && shell::contains_arguments(command.as_slice()) {
        return command;
    }
    let mut script = if quote_command && (!windows || utf8) {
        shell::single(command.as_slice())
    } else {
        command
    };
    if !has_args {
        return script;
    }
    let ghost base = script@;
    script.push(' ' as u8);
    script.push('"' as u8);
    script.push('$' as u8);
    script.push('@' as u8);
    script.push('"' as u8);
    assert(script@ =~= base + pass_arguments());
    script
}

impl Command {
    /// The process to spawn for `prep`, given the `words` that its command is split into to run it
    /// without the shell that it asks for, or `None` if it is to be run by that shell.
    pub fn from_words(prep: Prepare, host: Host, words: Option<Vec<String>>) -> (command: Command)
        requires
            prep@.use_shell ==> (words matches Some(words) ==> words@.len() > 0),
        ensures
            command@ == command_from(prep@, host@, optional_words(words)),
    {
        let ghost p = prep@;
        let ghost h = host@;
        let ghost w = optional_words(words);
        let Prepare {
            command,
            context,
            stdin,
            stdout,
            stderr,
            args: own_args,
            env: own_env,
            use_shell,
            quote_command,
            shell_program,
            allow_manual_arg_splitting: _,
        } = prep;
        let Host { windows, shell, script } = host;
        let mut args: Vec<Vec<u8>> = Vec::new();
        let program = if use_shell {
            match words {
                Some(words) => {
                    let mut words = bytes::encode_words(&words);
                    let ghost all = bytes::views(words@);
                    assert(all.len() == w->0.len());
                    assert(words@.len() == all.len());
                    let program = words.remove(0);
                    args = words;
                    assert(program@ == all[0]);
                    assert(bytes::views(args@) =~= all.skip(1));
                    assert(all.skip(1) =~= bytes::encoded(w->0.skip(1)));
                    program
                },
                None => {
                    let has_args = own_args.len() > 0;
                    let script = make_script(command, has_args, quote_command, windows);
                    args.push(vec!['-' as u8, 'c' as u8]);
                    args.push(script);
                    args.push(vec!['-' as u8, '-' as u8]);
                    assert(args@[0]@ =~= seq!['-' as u8, 'c' as u8]);
                    assert(args@[2]@ =~= seq!['-' as u8, '-' as u8]);
                    assert(bytes::views(args@) =~= invocation(p, h, w).1);
                    match shell_program {
                        Some(program) => program,
                        None => shell,
                    }
                },
            }
        } else {
            match script {
                Some(script) if windows => {
                    // For relative paths, we may have picked up a file in the current repository
                    // for which an attacker could control everything. Hence, strip options just
                    // like Git. If the file was found in the PATH though, it should be trustworthy.
                    if script.absolute {
                        args = script.shebang.args;
                    }
                    args.push(command);
                    assert(bytes::views(args@) =~= invocation(p, h, w).1);
                    script.shebang.interpreter
                },
                _ => {
                    assert(bytes::views(args@) =~= invocation(p, h, w).1);
                    command
                },
            }
        };
        let mut own_args = own_args;
        let ghost head = bytes::views(args@);
        args.append(&mut own_args);
        assert(bytes::views(args@) =~= head + p.args);
        let mut env = own_env;
        let mut stderr = stderr;
        if let Some(context) = context {
            match context.stderr {
                Some(true) => {
                    stderr = Stdio::Inherit;
                },
                Some(false) => {
                    stderr = Stdio::Null;
                },
                None => {},
            }
            context.set_variables(&mut env);
        }
        Command {
            program,
            args,
            env,
            stdin,
            stdout,
            stderr,
            creation_flags: if windows {
                CREATE_NO_WINDOW
            } else {
                0
            },
        }
    }

    /// The process to spawn for `prep`.
    pub fn from(prep: Prepare, host: Host) -> (command: Command)
        requires
            is_runnable(prep@, host@.windows),
        ensures
            command@ == command_of(prep@, host@),
            prepare::can_split(prep@) ==> forall|plain: Seq<Seq<char>>| #[trigger]
                shell::is_line_of(decode_utf8(prep@.command), plain) ==> command@ == command_from(
                    prep@,
                    host@,
                    Some(plain),
                ),
    {
        let words = prep.split_command();
        Command::from_words(prep, host, words)
    }
}

} // verus!
