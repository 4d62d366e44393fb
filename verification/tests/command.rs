use gix_command::shebang::Data;
use gix_command::{prepare, Command, Context, Host, Prepare, Script, Stdio, CREATE_NO_WINDOW};

const SH: &str = "/bin/sh";

fn unix() -> Host {
    Host {
        windows: false,
        shell: SH.into(),
        script: None,
    }
}

fn windows() -> Host {
    Host {
        windows: true,
        shell: SH.into(),
        script: None,
    }
}

fn cmd(command: &str) -> Prepare {
    prepare(command.into(), false)
}

/// The program and the arguments of `command`.
fn line(command: &Command) -> Vec<String> {
    let mut all = vec![command.program.clone()];
    all.extend(command.args.clone());
    all.into_iter()
        .map(|arg| String::from_utf8(arg).unwrap())
        .collect()
}

fn run(prep: Prepare) -> Vec<String> {
    assert!(prep.is_runnable(false));
    line(&Command::from(prep, unix()))
}

fn env(command: &Command) -> Vec<(String, String)> {
    command
        .env
        .iter()
        .map(|(name, value)| {
            (
                String::from_utf8(name.clone()).unwrap(),
                String::from_utf8(value.clone()).unwrap(),
            )
        })
        .collect()
}

#[test]
fn defaults() {
    let prep = cmd("ls");
    assert!(!prep.use_shell && !prep.quote_command && !prep.allow_manual_arg_splitting);
    let command = Command::from(prep, unix());
    assert_eq!(line(&command), ["ls"]);
    assert!(command.env.is_empty());
    assert_eq!(command.stdin, Stdio::Null);
    assert_eq!(command.stdout, Stdio::Piped);
    assert_eq!(command.stderr, Stdio::Inherit);
    assert_eq!(command.creation_flags, 0);
    assert!(prepare(b"ls".to_vec(), true).allow_manual_arg_splitting);
}

#[test]
fn direct_commands_are_verbatim() {
    assert_eq!(
        run(cmd("a 'b | c").arg("$x y".into())),
        ["a 'b | c", "$x y"]
    );
    assert_eq!(run(cmd("a b").with_shell().without_shell()), ["a b"]);
}

#[test]
fn arguments_keep_their_order() {
    assert_eq!(
        run(cmd("ls")
            .arg("1".into())
            .args(vec!["2".into(), "3".into()])
            .args(vec![])
            .arg("4".into())),
        ["ls", "1", "2", "3", "4"]
    );
}

#[test]
fn plain_commands_do_not_use_a_shell() {
    assert_eq!(
        run(cmd("/usr/bin/git-x.y").command_may_be_shell_script()),
        ["/usr/bin/git-x.y"]
    );
}

#[test]
fn every_kind_of_syntax_uses_a_shell() {
    for byte in "|&;<>()$`\\\"' \t\n*?[#~=%".chars() {
        let command = format!("a{byte}b");
        let prep = cmd(&command).command_may_be_shell_script();
        assert!(prep.use_shell, "{byte}");
        assert_eq!(run(prep), [SH, "-c", command.as_str(), "--"]);
    }
    for byte in "!]{}^,.:@+-_/".chars() {
        assert!(!cmd(&format!("a{byte}b")).command_may_be_shell_script().use_shell);
    }
}

#[test]
fn ill_formed_commands_use_a_shell() {
    let prep = prepare(b"a\xff".to_vec(), false)
        .command_may_be_shell_script_allow_manual_argument_splitting()
        .arg(b"b".to_vec());
    assert!(prep.use_shell);
    let command = Command::from(prep, unix());
    assert_eq!(command.program, SH.as_bytes());
    assert_eq!(command.args[1], b"a\xff \"$@\"");
}

#[test]
fn with_shell_always_uses_a_shell() {
    assert_eq!(
        run(cmd("ls")
            .command_may_be_shell_script_allow_manual_argument_splitting()
            .with_shell()),
        [SH, "-c", "ls", "--"]
    );
    assert_eq!(
        run(cmd("ls").with_shell().with_shell_program("bash".into())),
        ["bash", "-c", "ls", "--"]
    );
}

#[test]
fn arguments_are_passed_on_by_the_script() {
    assert_eq!(
        run(cmd("echo hi")
            .command_may_be_shell_script()
            .arg("store".into())),
        [SH, "-c", "echo hi \"$@\"", "--", "store"]
    );
}

#[test]
fn script_with_dollar_at() {
    assert_eq!(
        run(cmd("echo \"$@\" >&2")
            .command_may_be_shell_script()
            .arg("store".into())),
        [SH, "-c", "echo \"$@\" >&2", "--", "store"],
        "the caller is expected to have set up the argument passing"
    );
    assert_eq!(
        run(cmd("echo $").with_shell().arg("@".into())),
        [SH, "-c", "echo $ \"$@\"", "--", "@"]
    );
}

#[test]
fn dollar_at_counts_for_nothing_in_ill_formed_commands() {
    let command = Command::from(
        prepare(b"\xff$@".to_vec(), false)
            .with_shell()
            .arg(b"b".to_vec()),
        unix(),
    );
    assert_eq!(command.args[1], b"\xff$@ \"$@\"");
}

#[test]
fn quoted_command_without_argument_splitting() {
    assert_eq!(
        run(cmd("ls")
            .arg("--foo=a b".into())
            .command_may_be_shell_script_disallow_manual_argument_splitting()
            .with_shell()
            .with_quoted_command()),
        [SH, "-c", "'ls' \"$@\"", "--", "--foo=a b"]
    );
}

#[test]
fn quoted_command_escapes_quotes_and_exclamation_marks() {
    assert_eq!(
        run(cmd("C:\\O'S!\\with space.exe")
            .arg("--foo='a b'".into())
            .with_shell()
            .with_quoted_command()),
        [
            SH,
            "-c",
            "'C:\\O'\\''S'\\!'\\with space.exe' \"$@\"",
            "--",
            "--foo='a b'"
        ]
    );
}

#[test]
fn commands_are_quoted_with_and_without_arguments() {
    let quoted = |command: &str| cmd(command).with_shell().with_quoted_command();
    assert_eq!(run(quoted("my prog")), [SH, "-c", "'my prog'", "--"]);
    assert_eq!(
        run(quoted("my prog").arg("b".into())),
        [SH, "-c", "'my prog' \"$@\"", "--", "b"]
    );
    assert_eq!(run(quoted("it's")), [SH, "-c", "'it'\\''s'", "--"]);
    assert_eq!(
        run(quoted("a $@")),
        [SH, "-c", "'a $@'", "--"],
        "there are no arguments to mention"
    );
    assert_eq!(
        run(quoted("a $@").arg("b".into())),
        [SH, "-c", "a $@", "--", "b"],
        "the script that mentions its arguments is left as it is"
    );
    assert_eq!(
        run(cmd("my prog").with_shell()),
        [SH, "-c", "my prog", "--"],
        "nothing is quoted unless it is asked for"
    );
}

#[test]
fn ill_formed_commands_are_not_quoted_on_windows() {
    let prep = || {
        prepare(b"\xff".to_vec(), true)
            .with_shell()
            .with_quoted_command()
            .arg(b"b".to_vec())
    };
    assert!(prep().is_runnable(true));
    assert_eq!(Command::from(prep(), windows()).args[1], b"\xff \"$@\"");
    assert_eq!(Command::from(prep(), unix()).args[1], b"'\xff' \"$@\"");
}

#[test]
fn manual_splitting() {
    let allow = |command: &str| {
        cmd(command).command_may_be_shell_script_allow_manual_argument_splitting()
    };
    assert_eq!(
        run(allow("echo first 'second third'").arg("last".into())),
        ["echo", "first", "second third", "last"]
    );
    assert_eq!(
        run(allow("echo --a=\"b c\"")),
        ["echo", "--a=b c"]
    );
    assert_eq!(
        run(allow("echo 'unclosed")),
        [SH, "-c", "echo 'unclosed", "--"],
        "the shell is the fallback"
    );
    assert_eq!(
        run(allow("echo ~/x")),
        [SH, "-c", "echo ~/x", "--"],
        "the shell has to expand this"
    );
    assert_eq!(run(allow("echo")), ["echo"]);
    assert_eq!(
        run(cmd("echo a")
            .command_may_be_shell_script_disallow_manual_argument_splitting()),
        [SH, "-c", "echo a", "--"]
    );
}

#[test]
fn scripting_prevents_manual_splitting() {
    for byte in "\\|&;<>()$`\n*?[#~%".chars() {
        let prep = cmd(&format!("a {byte}"))
            .command_may_be_shell_script_allow_manual_argument_splitting();
        assert_eq!(prep.split_command(), None, "{byte}");
    }
    for byte in "=\t!]".chars() {
        let prep = cmd(&format!("a {byte}b"))
            .command_may_be_shell_script_allow_manual_argument_splitting();
        assert_eq!(prep.split_command().unwrap().len(), 2, "{byte}");
    }
}

#[test]
fn splitting_is_of_no_effect_without_a_shell() {
    let prep = cmd("a b")
        .command_may_be_shell_script_allow_manual_argument_splitting()
        .without_shell();
    assert_eq!(prep.split_command(), None);
    assert_eq!(run(prep), ["a b"]);
}

#[test]
fn blank_commands_cannot_be_split() {
    for (command, runnable) in [("", true), (" \t", false), (" a", true), (" '' ", true)] {
        let prep = cmd(command).command_may_be_shell_script_allow_manual_argument_splitting();
        assert_eq!(prep.is_runnable(false), runnable, "{command:?}");
    }
    let prep = prepare(b"".to_vec(), true).with_shell();
    assert!(prep.is_runnable(true));
    let prep = Prepare {
        allow_manual_arg_splitting: true,
        ..prep
    };
    assert!(!prep.is_runnable(true));
    assert_eq!(prep.split_command(), Some(vec![]));
    let ill_formed = prepare(b"\xff".to_vec(), true).command_may_be_shell_script();
    assert!(!ill_formed.is_runnable(true));
    assert!(ill_formed.is_runnable(false));
}

#[test]
fn ill_formed_namespaces_cannot_be_passed_on_windows() {
    let prep = cmd("x").with_context(Context {
        ref_namespace: Some(b"\xff".to_vec()),
        ..Context::default()
    });
    assert!(!prep.is_runnable(true));
    assert!(prep.is_runnable(false));
    assert_eq!(Command::from(prep, unix()).env[0].1, b"\xff");
}

#[test]
fn given_words_are_run() {
    let words = Some(vec!["x".to_string(), "y z".to_string()]);
    let command = Command::from_words(cmd("a").with_shell().arg("b".into()), unix(), words.clone());
    assert_eq!(line(&command), ["x", "y z", "b"]);
    let command = Command::from_words(cmd("a"), unix(), words);
    assert_eq!(line(&command), ["a"], "there is no shell to avoid");
    let command = Command::from_words(cmd("a").with_shell(), unix(), None);
    assert_eq!(line(&command), [SH, "-c", "a", "--"]);
}

fn script(absolute: bool) -> Host {
    Host {
        script: Some(Script {
            shebang: Data {
                interpreter: b"/bin/perl".to_vec(),
                args: vec![b"-w".to_vec(), b"-T".to_vec()],
            },
            absolute,
        }),
        ..windows()
    }
}

#[test]
fn absolute_scripts_are_run_with_options() {
    let command = Command::from(cmd("x").arg("y".into()), script(true));
    assert_eq!(line(&command), ["/bin/perl", "-w", "-T", "x", "y"]);
}

#[test]
fn relative_scripts_have_their_options_stripped() {
    let command = Command::from(cmd("x").arg("y".into()), script(false));
    assert_eq!(line(&command), ["/bin/perl", "x", "y"]);
}

#[test]
fn scripts_are_for_direct_commands_on_windows_only() {
    let command = Command::from(
        cmd("x"),
        Host {
            windows: false,
            ..script(true)
        },
    );
    assert_eq!(line(&command), ["x"]);
    let command = Command::from(cmd("x").with_shell(), script(true));
    assert_eq!(line(&command), [SH, "-c", "x", "--"]);
}

#[test]
fn windows_are_suppressed_on_windows() {
    assert_eq!(CREATE_NO_WINDOW, 0x08000000);
    assert_eq!(
        Command::from(cmd("x"), windows()).creation_flags,
        CREATE_NO_WINDOW
    );
    assert_eq!(
        Command::from(cmd("x").with_shell(), windows()).creation_flags,
        CREATE_NO_WINDOW
    );
}

#[test]
fn streams_are_configurable() {
    let command = Command::from(
        cmd("x")
            .stdin(Stdio::Piped)
            .stdout(Stdio::Inherit)
            .stderr(Stdio::Handle(7)),
        unix(),
    );
    assert_eq!(command.stdin, Stdio::Piped);
    assert_eq!(command.stdout, Stdio::Inherit);
    assert_eq!(command.stderr, Stdio::Handle(7));
}

#[test]
fn default_context_sets_nothing() {
    let command = Command::from(
        cmd("x").with_context(Context::default()).stderr(Stdio::Piped),
        unix(),
    );
    assert!(command.env.is_empty());
    assert_eq!(command.stderr, Stdio::Piped);
}

#[test]
fn context_sets_variables() {
    let context = |flag: bool| Context {
        git_dir: Some(b".git".to_vec()),
        worktree_dir: Some(b"tree".to_vec()),
        no_replace_objects: Some(flag),
        ref_namespace: Some(b"space".to_vec()),
        literal_pathspecs: Some(flag),
        glob_pathspecs: Some(flag),
        icase_pathspecs: Some(flag),
        stderr: None,
    };
    let expected = |glob: &str, value: &str| -> Vec<(String, String)> {
        [
            ("A", "b"),
            ("GIT_DIR", ".git"),
            ("GIT_WORK_TREE", "tree"),
            ("GIT_NO_REPLACE_OBJECTS", value),
            ("GIT_NAMESPACE", "space"),
            ("GIT_LITERAL_PATHSPECS", value),
            (glob, "1"),
            ("GIT_ICASE_PATHSPECS", value),
        ]
        .iter()
        .map(|(name, value)| (name.to_string(), value.to_string()))
        .collect()
    };
    let command = |flag| {
        Command::from(
            cmd("x")
                .with_context(context(flag))
                .env("A".into(), "b".into()),
            unix(),
        )
    };
    assert_eq!(env(&command(true)), expected("GIT_GLOB_PATHSPECS", "1"));
    assert_eq!(env(&command(false)), expected("GIT_NOGLOB_PATHSPECS", "0"));
}

#[test]
fn context_comes_after_the_environment() {
    let command = Command::from(
        cmd("x")
            .with_context(Context {
                git_dir: Some(b"new".to_vec()),
                ..Context::default()
            })
            .env("GIT_DIR".into(), "old".into())
            .env("OTHER".into(), "1".into())
            .env("OTHER".into(), "2".into()),
        unix(),
    );
    let last = |name: &str| {
        env(&command)
            .into_iter()
            .filter(|(key, _)| key == name)
            .last()
            .map(|(_, value)| value)
    };
    assert_eq!(last("GIT_DIR").as_deref(), Some("new"));
    assert_eq!(last("OTHER").as_deref(), Some("2"));
    assert_eq!(last("GIT_WORK_TREE"), None);
}

#[test]
fn context_decides_about_stderr() {
    for (stderr, expected) in [(true, Stdio::Inherit), (false, Stdio::Null)] {
        let command = Command::from(
            cmd("x")
                .with_context(Context {
                    stderr: Some(stderr),
                    ..Context::default()
                })
                .stderr(Stdio::Piped),
            unix(),
        );
        assert_eq!(command.stderr, expected);
    }
}
