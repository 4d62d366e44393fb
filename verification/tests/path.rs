use gix_command::shebang::Data;
use gix_command::{extract_interpreter, win_path_lookup, Lookup, Script, HEAD_LEN};

/// Run a lookup to its end, with `files` being all files there are, and also return what was probed.
fn run(command: &str, path_value: &str, files: &[&str]) -> (Option<String>, Vec<String>) {
    let mut lookup = win_path_lookup(command.as_bytes(), path_value.as_bytes(), true);
    let mut probed = Vec::new();
    loop {
        let is_file = match &lookup {
            Lookup::Probe { candidate, .. } => {
                let candidate = String::from_utf8(candidate.clone()).unwrap();
                let is_file = files.contains(&candidate.as_str());
                probed.push(candidate);
                is_file
            }
            Lookup::Found(path) => return (Some(String::from_utf8(path.clone()).unwrap()), probed),
            Lookup::NotFound => return (None, probed),
        };
        lookup = lookup.next(is_file);
    }
}

const FILES: &[&str] = &["root/a/x", "root/a/x.exe", "root/b/exe", "root/c/x.exe"];
const LOOKUP_PATH: &str = "root/a;root/b;root/c";

#[test]
fn internal_win_path_lookup() {
    assert_eq!(
        run("a/b", LOOKUP_PATH, FILES).0,
        None,
        "any path with separator is considered ready to use"
    );
    assert_eq!(
        run("x", LOOKUP_PATH, FILES).0.as_deref(),
        Some("root/a/x.exe"),
        "exe will be preferred, and it searches left to right thus doesn't find c/x.exe"
    );
    assert_eq!(
        run("x.exe", LOOKUP_PATH, FILES).0.as_deref(),
        Some("root/a/x.exe"),
        "no matter what, a/x won't be found as it's shadowed by an exe file"
    );
    assert_eq!(
        run("exe", LOOKUP_PATH, FILES).0.as_deref(),
        Some("root/b/exe"),
        "it finds files further down the path as well"
    );
}

#[test]
fn lookup_probes_left_to_right_and_executables_first() {
    let (found, probed) = run("x", "l;r/", &[]);
    assert_eq!(found, None);
    assert_eq!(probed, ["l/x.exe", "l/x", "r/x.exe", "r/x"]);
}

#[test]
fn lookup_of_an_executable_probes_just_its_name() {
    let (found, probed) = run("x.exe", "l;r", &["r/x.exe"]);
    assert_eq!(found.as_deref(), Some("r/x.exe"));
    assert_eq!(probed, ["l/x.exe", "r/x.exe"]);
}

#[test]
fn lookup_appends_the_extension_to_any_name() {
    assert_eq!(run("x.sh", "l", &[]).1, ["l/x.sh.exe", "l/x.sh"]);
    assert_eq!(run(".x", "l", &[]).1, ["l/.x.exe", "l/.x"]);
    assert_eq!(run("x.", "l", &[]).1, ["l/x..exe", "l/x."]);
    assert_eq!(run("a.b.c", "l", &[]).1, ["l/a.b.c.exe", "l/a.b.c"]);
    assert_eq!(run(".exe", "l", &[]).1, ["l/.exe.exe", "l/.exe"]);
    assert_eq!(run("x.EXE", "l", &[]).1, ["l/x.EXE.exe", "l/x.EXE"]);
}

#[test]
fn scripts_are_found_by_their_full_name() {
    let files = ["/p/x.sh", "/p/x"];
    assert_eq!(run("x.sh", "/p", &files).0.as_deref(), Some("/p/x.sh"));
    assert_eq!(run("x", "/p", &files).0.as_deref(), Some("/p/x"));
    assert_eq!(run("x.py", "/p", &files).0, None);
}

#[test]
fn lookup_is_not_performed_for_paths() {
    for command in ["a/b", "a\\b", "/a", "a/", "\\", "c:a", "c:", "", ".", ".."] {
        let (found, probed) = run(command, "l;r", &["l/a.exe", "l/a"]);
        assert_eq!(found, None, "{command}");
        assert!(probed.is_empty(), "{command}");
    }
}

#[test]
fn drives_are_special_on_windows_only() {
    assert_eq!(win_path_lookup(b"c:x", b"l", true), Lookup::NotFound);
    assert!(matches!(
        win_path_lookup(b"c:x", b"l", false),
        Lookup::Probe { .. }
    ));
}

#[test]
fn lookup_is_performed_for_any_bytes() {
    let lookup = win_path_lookup(b"x\xff", b"l\xfe;r", false);
    let Lookup::Probe { rest, .. } = lookup else {
        panic!("there is something to look for");
    };
    assert_eq!(rest.len(), 3);
    if std::path::MAIN_SEPARATOR == '/' {
        assert_eq!(rest[0], b"l\xfe/x\xff");
        assert_eq!(rest[1], b"r/x\xff.exe");
        assert_eq!(rest[2], b"r/x\xff");
    }
}

#[test]
fn empty_directories_are_looked_at_as_well() {
    assert_eq!(run("x", "", &[]).1, ["x.exe", "x"]);
    assert_eq!(
        run("x", ";l;", &[]).1,
        ["x.exe", "x", "l/x.exe", "l/x", "x.exe", "x"]
    );
}

#[test]
fn longer_paths_are_searched_in_turn() {
    for (first, second) in [("a", "b"), ("a;b", "c"), ("", "a"), ("a;", ";b")] {
        for command in ["x", "x.exe"] {
            let all = format!("{first};{second}");
            let (_, mut probed) = run(command, first, &[]);
            probed.extend(run(command, second, &[]).1);
            assert_eq!(run(command, &all, &[]).1, probed);
            for file in &probed {
                let files = [file.as_str()];
                let found = run(command, first, &files).0;
                assert_eq!(
                    run(command, &all, &files).0,
                    found.or(run(command, second, &files).0)
                );
            }
        }
    }
    assert_eq!(
        run("x", "a;b", &["a/x", "b/x.exe"]).0.as_deref(),
        Some("a/x"),
        "directories come before extensions"
    );
}

#[test]
fn finished_lookups_stay_finished() {
    assert_eq!(Lookup::NotFound.next(true), Lookup::NotFound);
    assert_eq!(
        Lookup::Found(b"x".to_vec()).next(false),
        Lookup::Found(b"x".to_vec())
    );
}

#[test]
fn commands_that_are_not_found_stand_for_themselves() {
    assert_eq!(Lookup::Found(b"l/x".to_vec()).into_program(b"x"), b"l/x");
    assert_eq!(Lookup::NotFound.into_program(b"x"), b"x");
    assert_eq!(win_path_lookup(b"x", b"l", true).into_program(b"x"), b"x");
}

fn shell() -> Option<Data> {
    Some(Data {
        interpreter: b"/bin/sh".to_vec(),
        args: vec![b"-x".to_vec()],
    })
}

#[test]
fn interpreter_is_extracted_from_the_head() {
    let head = Some(b"#!/bin/sh -x\nexit".to_vec());
    assert_eq!(extract_interpreter(b"dir/x", head.clone(), false), shell());
    assert_eq!(extract_interpreter(b"dir/x", head.clone(), true), shell());
    assert_eq!(extract_interpreter(b"dir/x.exe", head, false), shell());
    assert_eq!(extract_interpreter(b"dir/x", None, false), None);
    assert_eq!(
        extract_interpreter(b"dir/x", Some(b"exit".to_vec()), false),
        None
    );
}

#[test]
fn executables_have_no_interpreter_on_windows() {
    let head = Some(b"#!/bin/sh -x\n".to_vec());
    assert_eq!(extract_interpreter(b"dir/x.exe", head.clone(), true), None);
    assert_eq!(extract_interpreter(b"x.exe", head.clone(), true), None);
    assert_eq!(extract_interpreter(b"dir.exe/x", head.clone(), true), shell());
    assert_eq!(extract_interpreter(b"x.exe.sh", head.clone(), true), shell());
    assert_eq!(extract_interpreter(b"exe", head, true), shell());
}

#[test]
fn executables_are_told_by_their_last_name() {
    let head = Some(b"#!/bin/sh -x\n".to_vec());
    for path in [
        "//server/share/x.exe",
        "//server/share/dir/x.exe",
        "c:/dir/x.exe",
        "c:x.exe",
        "x.exe/",
        "dir/x.exe/.",
        "dir/.x.exe",
        "\\\\?\\c:\\x.exe",
        "\\\\?\\c:\\dir\\x.exe",
        "\\\\?\\UNC\\server\\share\\x.exe",
        "\\\\server\\share\\x.exe",
        "x.exe\\",
        "dir\\x.exe\\.\\",
        "\\\\?\\c:\\x.exe\\",
        "c:\\x.exe",
    ] {
        let found = extract_interpreter(path.as_bytes(), head.clone(), true);
        assert_eq!(found, None, "{path}");
    }
    for path in [
        ".exe",
        "dir/.exe",
        "dir/.exe/",
        "x.exe.",
        "x.exe/..",
        "x.",
        ".",
        "..",
        "/",
        "",
        "x.EXE",
        "//server/share/x",
        "//server/share/.exe",
        "\\\\?\\c:\\a.sh",
        "\\\\?\\c:\\a.exe.sh",
        "\\\\?\\c:\\a\\",
        "x.sh\\",
        "dir\\x\\.",
        "dir\\.exe",
        "x.exe\\..",
    ] {
        let found = extract_interpreter(path.as_bytes(), head.clone(), true);
        assert_eq!(found, shell(), "{path}");
    }
}

#[test]
fn executables_do_not_have_to_be_text() {
    let head = Some(b"#!/bin/sh -x\n".to_vec());
    let found = |path: &[u8]| extract_interpreter(path, head.clone(), true);
    assert_eq!(found(b"\xff.exe"), None);
    assert_eq!(found(b"\xff/x.exe"), None);
    assert_eq!(found(b"x.\xff"), shell());
    assert_eq!(found(b"x.exe\xff"), shell());

    let Lookup::Probe { rest, .. } = win_path_lookup(b"\xff.exe", b"l;r", true) else {
        panic!("there is something to look for");
    };
    assert_eq!(rest.len(), 1, "nothing is appended");
}

#[test]
fn only_the_head_of_a_file_counts() {
    assert_eq!(HEAD_LEN, 100);
    let mut head = b"#!/".to_vec();
    head.resize(HEAD_LEN, b'a');
    let short = extract_interpreter(b"x", Some(head.clone()), false).unwrap();
    assert_eq!(short.interpreter, head[2..].to_vec());
    head.extend_from_slice(b"bcd -x");
    let long = extract_interpreter(b"x", Some(head), false).unwrap();
    assert_eq!(long, short);
}

#[test]
fn scripts_know_if_their_path_is_absolute() {
    let head = Some(b"#!/bin/sh -x\n".to_vec());
    for (program, absolute) in [
        ("x", false),
        ("dir/x", false),
        ("c:x", false),
        ("//server/share/x", true),
        ("//server/share/", true),
    ] {
        let script = Script::find(program.as_bytes(), head.clone(), true).unwrap();
        assert_eq!(Some(script.shebang), shell());
        assert_eq!(script.absolute, absolute, "{program}");
    }
    let root = if std::path::Path::new("/x").is_absolute() {
        "/x"
    } else {
        "c:/x"
    };
    assert!(Script::find(root.as_bytes(), head.clone(), true).unwrap().absolute);
    assert_eq!(Script::find(b"x.exe", head, true), None);
    assert_eq!(Script::find(b"x", None, true), None);
}
