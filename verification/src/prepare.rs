//! The settings to invoke a command with, and how they are made.

use crate::bytes;
use crate::context;
use crate::context::{Context, ContextView, Variables};
use crate::shell;
use vstd::prelude::*;
use vstd::utf8::*;

verus! {

/// What a standard stream of a process is connected to.
#[derive(Debug, Clone, Copy, PartialEq, Eq, Structural)]
pub enum Stdio {
    /// The stream of the parent process.
    Inherit,
    /// Nothing: there is nothing to read, and what is written is ignored.
    Null,
    /// A pipe to the parent process.
    Piped,
    /// A handle that the caller has opened and knows by this number.
    Handle(u64),
}

/// A structure to keep settings to use when invoking a command, after creating it with
/// [`prepare()`].
pub struct Prepare {
    /// The command to invoke, either directly or with a shell depending on `use_shell`.
    pub command: Vec<u8>,
    /// Additional information to be passed to the spawned command.
    pub context: Option<Context>,
    /// The way standard input is configured.
    pub stdin: Stdio,
    /// The way standard output is configured.
    pub stdout: Stdio,
    /// The way standard error is configured.
    pub stderr: Stdio,
    /// The arguments to pass to the process being spawned.
    pub args: Vec<Vec<u8>>,
    /// Environment variables to set for the spawned process.
    pub env: Variables,
    /// If `true`, we will use `shell_program` or `sh` to execute the `command`.
    pub use_shell: bool,
    /// If `true`, `command` is assumed to be a command or path to the program to execute, and it
    /// will be shell-quoted to assure it will be executed as is and without splitting across
    /// whitespace.
    pub quote_command: bool,
    /// The name or path to the shell program to use instead of `sh`.
    pub shell_program: Option<Vec<u8>>,
    /// If `true` (default `true` on Windows and `false` everywhere else) we will see if it's safe
    /// to manually invoke `command` after splitting its arguments as a shell would do.
    ///
    /// Note that outside of Windows, it's generally not advisable as this removes support for
    /// literal shell scripts with shell-builtins.
    ///
    /// This mimics the behaviour we see with `git` on Windows, which also won't invoke the shell
    /// there at all.
    ///
    /// Only effective if `use_shell` is `true` as well, as the shell will be used as a fallback if
    /// it's not possible to split arguments as the command-line contains 'scripting'.
    pub allow_manual_arg_splitting: bool,
}

/// What [`Prepare`] holds.
#[verifier::ext_equal]
pub struct PrepareView {
    pub command: Seq<u8>,
    pub context: Option<ContextView>,
    pub stdin: Stdio,
    pub stdout: Stdio,
    pub stderr: Stdio,
    pub args: Seq<Seq<u8>>,
    pub env: Seq<(Seq<u8>, Seq<u8>)>,
    pub use_shell: bool,
    pub quote_command: bool,
    pub shell_program: Option<Seq<u8>>,
    pub allow_manual_arg_splitting: bool,
}

impl View for Prepare {
    type V = PrepareView;

    open spec fn view(&self) -> PrepareView {
        PrepareView {
            command: self.command@,
            context: match self.context {
                Some(context) => Some(context@),
                None => None,
            },
            stdin: self.stdin,
            stdout: self.stdout,
            stderr: self.stderr,
            args: bytes::views(self.args@),
            env: context::variables(self.env@),
            use_shell: self.use_shell,
            quote_command: self.quote_command,
            shell_program: bytes::optional_view(self.shell_program),
            allow_manual_arg_splitting: self.allow_manual_arg_splitting,
        }
    }
}

/// Whether `command` may be more than the name of a program, and so needs a shell: it holds shell
/// syntax, or it is not even text.
pub open spec fn may_be_shell_script(command: Seq<u8>) -> bool {
    !valid_utf8(command) || shell::has_shell_syntax(command)
}

/// Whether `command` is to be split into words without a shell, and can be.
pub open spec fn can_split(prep: PrepareView) -> bool {
    &&& prep.use_shell
    &&& prep.allow_manual_arg_splitting
    &&& !shell::has_scripting(prep.command)
    &&& valid_utf8(prep.command)
}

/// The words that the command is split into to run it without the shell that it asks for, or `None`
/// if it isn't split.
pub open spec fn manual_words(prep: PrepareView) -> Option<Seq<Seq<char>>> {
    if can_split(prep) {
        shell::shell_words_of(decode_utf8(prep.command))
    } else {
        None
    }
}

/// Prepare `cmd` for spawning by configuring it with various builder methods, to run on Windows or
/// elsewhere as `windows` says.
///
/// Note that the default IO is configured for typical API usage, that is
///
/// - `stdin` is null to prevent blocking unexpectedly on consumption of stdin
/// - `stdout` is captured for consumption by the caller
/// - `stderr` is inherited to allow the command to provide context to the user
///
/// On Windows, terminal Windows will be suppressed automatically.
///
/// ### Warning
///
/// When using this method, be sure that the invoked program doesn't rely on the current working dir
/// and/or environment variables to know its context. If so, call instead
/// [`Prepare::with_context()`] to provide additional information.
pub fn prepare(cmd: Vec<u8>, windows: bool) -> (prep: Prepare)
    ensures
        prep@ == (PrepareView {
            command: cmd@,
            context: None,
            stdin: Stdio::Null,
            stdout: Stdio::Piped,
            stderr: Stdio::Inherit,
            args: seq![],
            env: seq![],
            use_shell: false,
            quote_command: false,
            shell_program: None,
            allow_manual_arg_splitting: windows,
        }),
{
    let prep = Prepare {
        command: cmd,
        shell_program: None,
        context: None,
        stdin: Stdio::Null,
        stdout: Stdio::Piped,
        stderr: Stdio::Inherit,
        args: Vec::new(),
        env: Vec::new(),
        use_shell: false,
        quote_command: false,
        allow_manual_arg_splitting: windows,
    };
    assert(prep@.args =~= seq![]);
    assert(prep@.env =~= seq![]);
    prep
}

/// Builder
impl Prepare {
    /// If called, the command will be checked for characters that are typical for shell
    /// scripts, and if found will use `sh` to execute it or whatever is set as
    /// [`with_shell_program()`](Self::with_shell_program()).
    ///
    /// If the command isn't valid UTF-8, a shell will always be used.
    ///
    /// If a shell is used, then arguments given here with [arg()](Self::arg) or
    /// [args()](Self::args) will be substituted via `"$@"` if it's not already present in the
    /// command.
    ///
    /// The [`command_may_be_shell_script_allow_manual_argument_splitting()`](Self::command_may_be_shell_script_allow_manual_argument_splitting())
    /// and [`command_may_be_shell_script_disallow_manual_argument_splitting()`](Self::command_may_be_shell_script_disallow_manual_argument_splitting())
    /// methods also call this method.
    ///
    /// If neither this method nor [`with_shell()`](Self::with_shell()) is called, commands are
    /// always executed verbatim and directly, without the use of a shell.
    pub fn command_may_be_shell_script(self) -> (prep: Self)
        ensures
            prep@ == (PrepareView { use_shell: may_be_shell_script(self@.command), ..self@ }),
    {
        let use_shell = match bytes::to_str(self.command.as_slice()) {
            Some(command) => shell::contains_shell_syntax(command.as_bytes()),
            None => true,
        };
        Prepare { use_shell, ..self }
    }

    /// If called, unconditionally use a shell to execute the command and its arguments.
    ///
    /// This uses `sh` to execute it, or whatever is set as
    /// [`with_shell_program()`](Self::with_shell_program()).
    ///
    /// Arguments given here with [arg()](Self::arg) or [args()](Self::args) will be
    /// substituted via `"$@"` if it's not already present in the command.
    ///
    /// If neither this method nor
    /// [`command_may_be_shell_script()`](Self::command_may_be_shell_script()) is called,
    /// commands are always executed verbatim and directly, without the use of a shell. (But
    /// see [`command_may_be_shell_script()`](Self::command_may_be_shell_script()) on other
    /// methods that call that method.)
    ///
    /// We also disallow manual argument splitting
    /// (see [`command_may_be_shell_script_disallow_manual_argument_splitting`](Self::command_may_be_shell_script_disallow_manual_argument_splitting()))
    /// to assure a shell is indeed used, no matter what.
    pub fn with_shell(self) -> (prep: Self)
        ensures
            prep@ == (PrepareView { use_shell: true, allow_manual_arg_splitting: false, ..self@ }),
    {
        Prepare { use_shell: true, allow_manual_arg_splitting: false, ..self }
    }

    /// Quote the command if it is run in a shell, so its path is left intact.
    ///
    /// This is only meaningful if the command has been arranged to run in a shell, either
    /// unconditionally with [`with_shell()`](Self::with_shell()), or conditionally with
    /// [`command_may_be_shell_script()`](Self::command_may_be_shell_script()).
    ///
    /// Note that this should not be used if the command is a script - quoting is only the
    /// right choice if it's known to be a program path.
    ///
    /// Note also that this does not affect arguments passed with [arg()](Self::arg) or
    /// [args()](Self::args), which do not have to be quoted by the *caller* because they are
    /// passed as `"$@"` positional parameters (`"$1"`, `"$2"`, and so on).
    pub fn with_quoted_command(self) -> (prep: Self)
        ensures
            prep@ == (PrepareView { quote_command: true, ..self@ }),
    {
        Prepare { quote_command: true, ..self }
    }

    /// Set the name or path to the shell `program` to use if a shell is to be used, to avoid
    /// using the default shell which is `sh`.
    ///
    /// Note that shells that are not Bourne-style cannot be expected to work correctly,
    /// because POSIX shell syntax is assumed when searching for and conditionally adding
    /// `"$@"` to receive arguments, where applicable (and in the behaviour of
    /// [`with_quoted_command()`](Self::with_quoted_command()), if called).
    pub fn with_shell_program(self, program: Vec<u8>) -> (prep: Self)
        ensures
            prep@ == (PrepareView { shell_program: Some(program@), ..self@ }),
    {
        Prepare { shell_program: Some(program), ..self }
    }

    /// Unconditionally turn off using the shell when spawning the command.
    ///
    /// Note that not using the shell is the default. So an effective use of this method
    /// is some time after [`command_may_be_shell_script()`](Self::command_may_be_shell_script())
    /// or [`with_shell()`](Self::with_shell()) was called.
    pub fn without_shell(self) -> (prep: Self)
        ensures
            prep@ == (PrepareView { use_shell: false, ..self@ }),
    {
        Prepare { use_shell: false, ..self }
    }

    /// Set additional `ctx` to be used when spawning the process.
    ///
    /// Note that this is a must for most kind of commands that `git` usually spawns, as at
    /// least they need to know the correct Git repository to function.
    pub fn with_context(self, ctx: Context) -> (prep: Self)
        ensures
            prep@ == (PrepareView { context: Some(ctx@), ..self@ }),
    {
        Prepare { context: Some(ctx), ..self }
    }

    /// Like [`command_may_be_shell_script()`](Self::command_may_be_shell_script()), but try to
    /// split arguments by hand if this can be safely done without a shell.
    ///
    /// This is useful on platforms where spawning processes is slow, or where many processes
    /// have to be spawned in a row which should be sped up. Manual argument splitting is
    /// enabled by default on Windows only.
    ///
    /// Note that this does *not* check for the use of possible shell builtins. Commands may
    /// fail or behave differently if they are available as shell builtins and no corresponding
    /// external command exists, or the external command behaves differently.
    pub fn command_may_be_shell_script_allow_manual_argument_splitting(self) -> (prep: Self)
        ensures
            prep@ == (PrepareView {
                use_shell: may_be_shell_script(self@.command),
                allow_manual_arg_splitting: true,
                ..self@
            }),
    {
        Prepare { allow_manual_arg_splitting: true, ..self }.command_may_be_shell_script()
    }

    /// Like [`command_may_be_shell_script()`](Self::command_may_be_shell_script()), but don't
    /// allow to bypass the shell even if manual argument splitting can be performed safely.
    pub fn command_may_be_shell_script_disallow_manual_argument_splitting(self) -> (prep: Self)
        ensures
            prep@ == (PrepareView {
                use_shell: may_be_shell_script(self@.command),
                allow_manual_arg_splitting: false,
                ..self@
            }),
    {
        Prepare { allow_manual_arg_splitting: false, ..self }.command_may_be_shell_script()
    }

    /// Configure the process to use `stdio` for _stdin_.
    pub fn stdin(self, stdio: Stdio) -> (prep: Self)
        ensures
            prep@ == (PrepareView { stdin: stdio, ..self@ }),
    {
        Prepare { stdin: stdio, ..self }
    }

    /// Configure the process to use `stdio` for _stdout_.
    pub fn stdout(self, stdio: Stdio) -> (prep: Self)
        ensures
            prep@ == (PrepareView { stdout: stdio, ..self@ }),
    {
        Prepare { stdout: stdio, ..self }
    }

    /// Configure the process to use `stdio` for _stderr_.
    pub fn stderr(self, stdio: Stdio) -> (prep: Self)
        ensures
            prep@ == (PrepareView { stderr: stdio, ..self@ }),
    {
        Prepare { stderr: stdio, ..self }
    }

    /// Add `arg` to the list of arguments to call the command with.
    pub fn arg(self, arg: Vec<u8>) -> (prep: Self)
        ensures
            prep@ == (PrepareView { args: self@.args.push(arg@), ..self@ }),
    {
        let mut prep = self;
        prep.args.push(arg);
        assert(prep@.args =~= self@.args.push(arg@));
        prep
    }

    /// Add `args` to the list of arguments to call the command with.
    pub fn args(self, args: Vec<Vec<u8>>) -> (prep: Self)
        ensures
            prep@ == (PrepareView { args: self@.args + bytes::views(args@), ..self@ }),
    {
        let mut prep = self;
        let mut added = args;
        prep.args.append(&mut added);
        assert(prep@.args =~= self@.args + bytes::views(args@));
        prep
    }

    /// Add `key` with `value` to the environment of the spawned command.
    pub fn env(self, key: Vec<u8>, value: Vec<u8>) -> (prep: Self)
        ensures
            prep@ == (PrepareView { env: self@.env.push((key@, value@)), ..self@ }),
    {
        let mut prep = self;
        prep.env.push((key, value));
        assert(prep@.env =~= self@.env.push((key@, value@)));
        prep
    }

    /// Split the command into words if it asks for a shell that it can do without, or return `None`
    /// if it doesn't, or if it leaves a quote open.
    pub fn split_command(&self) -> (words: Option<Vec<String>>)
        ensures
            match words {
                Some(words) => manual_words(self@) == Some(bytes::word_views(words@)),
                None => manual_words(self@) is None,
            },
            can_split(self@) ==> ((words matches Some(words) && words@.len() == 0)
                <==> shell::all_blank(self@.command)),
            can_split(self@) ==> forall|plain: Seq<Seq<char>>| #[trigger]
                shell::is_line_of(decode_utf8(self@.command), plain) ==> (words matches Some(words)
                    && bytes::word_views(words@) == plain),
    {
        if !self.use_shell || !self.allow_manual_arg_splitting {
            return None;
        }
        if shell::contains_scripting(self.command.as_slice()) {
            return None;
        }
        match bytes::to_str(self.command.as_slice()) {
            Some(command) => {
                proof {
                    encode_utf8_decode_utf8(command@);
                    assert forall|i: int| 0 <= i < self@.command.len() implies #[trigger] self@.command[i]
                        != '\\' as u8 && self@.command[i] != '#' as u8 by {
                        assert(!shell::is_scripting(self@.command[i]));
                    }
                }
                shell::split(command)
            },
            None => None,
        }
    }
}

} // verus!
