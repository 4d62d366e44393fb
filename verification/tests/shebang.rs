use gix_command::shebang::{parse, parse_line, Data, Line};

fn data(interpreter: &[u8], args: &[&[u8]]) -> Option<Data> {
    Some(Data {
        interpreter: interpreter.to_vec(),
        args: args.iter().map(|arg| arg.to_vec()).collect(),
    })
}

#[test]
fn interpreter_without_arguments() {
    assert_eq!(parse(b"#!/bin/sh"), data(b"/bin/sh", &[]));
    assert_eq!(parse(b"#!/bin/sh\n"), data(b"/bin/sh", &[]));
    assert_eq!(parse(b"#!/bin/sh\r\n"), data(b"/bin/sh", &[]));
    assert_eq!(parse(b"#!/bin/sh\r"), data(b"/bin/sh", &[]));
    assert_eq!(parse(b"#!/bin/sh "), data(b"/bin/sh", &[]));
    assert_eq!(parse(b"#!/bin/sh\t"), data(b"/bin/sh", &[]));
    assert_eq!(parse(b"#! /bin/sh"), data(b"/bin/sh", &[]));
    assert_eq!(parse(b"#!\t /bin/sh"), data(b"/bin/sh", &[]));
    assert_eq!(parse(b"#!/"), data(b"/", &[]));
}

#[test]
fn windows_paths() {
    assert_eq!(
        parse(b"#!C:\\Program Files\\sh.exe -x"),
        data(b"C:\\Program Files\\sh.exe", &[b"-x"])
    );
    assert_eq!(parse(b"#!\\bin\\sh"), data(b"\\bin\\sh", &[]));
}

#[test]
fn interpreter_with_arguments() {
    assert_eq!(
        parse(b"#!/bin/sh -i -o -u"),
        data(b"/bin/sh", &[b"-i", b"-o", b"-u"])
    );
    assert_eq!(
        parse(b"#!/bin/sh   -i  \n"),
        data(b"/bin/sh", &[b"-i"])
    );
    assert_eq!(
        parse(b"#!/bin/sh -o 'a b' \"c d\"\n"),
        data(b"/bin/sh", &[b"-o", b"a b", b"c d"])
    );
    assert_eq!(
        parse(b"#!/bin/a b/c -x"),
        data(b"/bin/a b/c", &[b"-x"]),
        "only spaces past the last separator count"
    );
    assert_eq!(
        parse(b"#!/bin/sh a/b c"),
        data(b"/bin/sh a/b", &[b"c"]),
        "separators in arguments are taken for those of the interpreter"
    );
}

#[test]
fn unclosed_quotes_leave_no_arguments() {
    assert_eq!(parse(b"#!/bin/sh 'a b"), data(b"/bin/sh", &[]));
}

#[test]
fn ill_formed_options_are_kept_in_one_piece() {
    assert_eq!(
        parse(b"#!/bin/sh \xff -x "),
        data(b"/bin/sh", &[b"\xff -x"])
    );
    assert_eq!(parse(b"#!/b\xffn/sh"), data(b"/b\xffn/sh", &[]));
}

#[test]
fn no_shebang() {
    assert_eq!(parse(b""), None);
    assert_eq!(parse(b"\n#!/bin/sh"), None);
    assert_eq!(parse(b"#"), None);
    assert_eq!(parse(b"#!"), None);
    assert_eq!(parse(b"# !/bin/sh"), None);
    assert_eq!(parse(b" #!/bin/sh"), None);
    assert_eq!(parse(b"#!sh"), None, "there is no path separator");
    assert_eq!(parse(b"#!\n/bin/sh"), None);
}

#[test]
fn unicode_white_space_is_trimmed() {
    assert_eq!(
        parse("#!\u{2003}\u{a0}/bin/sh\u{3000}\u{85} \u{2009}-x\u{1680}\n".as_bytes()),
        data(b"/bin/sh", &[b"-x"])
    );
    assert_eq!(
        parse("#!/bin/sh\u{200b}".as_bytes()),
        data("/bin/sh\u{200b}".as_bytes(), &[]),
        "this one isn't white space"
    );
}

#[test]
fn only_the_first_line_is_read() {
    assert_eq!(parse(b"#!/bin/sh -x\n-y /a b"), parse(b"#!/bin/sh -x"));
    assert_eq!(parse(b"#!/bin/sh -x\n"), parse(b"#!/bin/sh -x\n\n\n"));
    for line in ["#!/bin/sh -x", "#!/bin/sh -x\r", "#!/bin/sh\r\r", "#!/", "#!\r", "#", "\r", ""] {
        let alone = parse(line.as_bytes());
        for end in ["\n", "\r\n"] {
            for rest in ["", "#!/bin/other", "\r\n"] {
                let all = format!("{line}{end}{rest}");
                assert_eq!(parse(all.as_bytes()), alone, "{all:?}");
            }
        }
    }
}

#[test]
fn interpreter_has_a_separator() {
    for buf in ["#!/", "#! a/ b", "#!\\ x y", "#!a/b/c\td"] {
        let interpreter = parse(buf.as_bytes()).unwrap().interpreter;
        assert!(interpreter.contains(&b'/') || interpreter.contains(&b'\\'));
    }
}

#[test]
fn lines_hold_their_options_in_one_piece() {
    let line = parse_line(b"#!/bin/sh  -x  'y z' \n").unwrap();
    assert_eq!(
        line,
        Line {
            interpreter: b"/bin/sh".to_vec(),
            options: b"-x  'y z'".to_vec(),
        }
    );
    assert_eq!(parse_line(b"#!sh"), None);

    let words = Some(vec!["a".to_string(), "b c".to_string()]);
    assert_eq!(
        Some(Data::from_line(line.clone(), words)),
        data(b"/bin/sh", &[b"a", b"b c"])
    );
    assert_eq!(
        Some(Data::from_line(line, None)),
        data(b"/bin/sh", &[])
    );
    let ill_formed = Line {
        interpreter: b"/x".to_vec(),
        options: b"\xff".to_vec(),
    };
    assert_eq!(
        Some(Data::from_line(ill_formed, None)),
        data(b"/x", &[b"\xff"])
    );
}
