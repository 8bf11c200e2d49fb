use nebula::detach::{command_line, wide, Detached, Stdio};

fn rendered(program: &str, args: &[&str]) -> String {
    let args: Vec<String> = args.iter().map(|a| a.to_string()).collect();
    let wide = command_line(program, &args).unwrap();
    assert_eq!(wide.last(), Some(&0), "command line must be NUL-terminated");
    String::from_utf16(&wide[..wide.len() - 1]).unwrap()
}

#[test]
fn program_is_always_quoted() {
    assert_eq!(
        rendered(r"C:\bin\nebulad.exe", &[]),
        r#""C:\bin\nebulad.exe""#
    );
    assert_eq!(
        rendered(r"C:\Program Files\Nebula\nebulad.exe", &[]),
        r#""C:\Program Files\Nebula\nebulad.exe""#
    );
}

#[test]
fn plain_args_are_left_alone() {
    assert_eq!(
        rendered("nebulad", &["vz-worker", "--spec"]),
        r#""nebulad" vz-worker --spec"#
    );
}

#[test]
fn args_with_whitespace_or_nothing_get_quoted() {
    assert_eq!(rendered("d", &["a b"]), r#""d" "a b""#);
    assert_eq!(rendered("d", &["a\tb"]), "\"d\" \"a\tb\"");
    assert_eq!(rendered("d", &[""]), r#""d" """#);
}

#[test]
fn backslashes_only_double_where_a_quote_follows() {
    // A trailing run before the closing quote that is added must be doubled,
    // or it would escape that quote instead of standing for itself.
    assert_eq!(rendered("d", &[r"C:\a dir\"]), r#""d" "C:\a dir\\""#);
    // No closing quote to protect: the run stays literal.
    assert_eq!(rendered("d", &[r"C:\dir\"]), r#""d" C:\dir\"#);
    // 2n+1 backslashes before an embedded quote.
    assert_eq!(rendered("d", &[r#"a\"b"#]), r#""d" a\\\"b"#);
}

#[test]
fn nul_in_an_argument_is_rejected() {
    let args = vec![String::from("a\0b")];
    assert!(command_line("d", &args).is_err());
}

#[test]
fn nul_in_the_program_is_rejected() {
    assert!(command_line("a\0b", &vec![]).is_err());
}

#[test]
fn wide_units_follow_utf16() {
    assert_eq!(wide("aé"), vec![0x61, 0xe9]);
    // Beyond the basic plane: a surrogate pair.
    assert_eq!(wide("\u{1F600}"), vec![0xd83d, 0xde00]);
    assert_eq!(wide("\u{1F600}"), "\u{1F600}".encode_utf16().collect::<Vec<u16>>());
}

#[test]
fn a_detached_command_keeps_what_it_is_given() {
    let d = Detached::new("/bin/x".to_string())
        .arg("one")
        .arg("two")
        .stdout(Stdio::File("/tmp/out".to_string()))
        .stderr(Stdio::Null);
    assert_eq!(d.program, "/bin/x");
    assert_eq!(d.args, vec!["one", "two"]);
    assert!(matches!(d.stdout, Stdio::File(ref p) if p == "/tmp/out"));
    assert!(matches!(d.stderr, Stdio::Null));
}

/// Splits a command line the way the child's runtime does.
fn split(line: &str) -> Vec<String> {
    let mut out = Vec::new();
    let mut cur = String::new();
    let mut open = false;
    let mut started = false;
    let mut slashes = 0usize;
    let mut first = true;
    for c in line.chars() {
        if first {
            // The program: between quotes, backslashes stand for themselves.
            if c == '"' {
                open = !open;
                started = true;
            } else if c == ' ' && !open {
                out.push(std::mem::take(&mut cur));
                started = false;
                first = false;
            } else {
                cur.push(c);
            }
            continue;
        }
        match c {
            '\\' => slashes += 1,
            '"' => {
                for _ in 0..slashes / 2 {
                    cur.push('\\');
                }
                if slashes % 2 == 1 {
                    cur.push('"');
                } else {
                    open = !open;
                }
                started = true;
                slashes = 0;
            }
            _ => {
                for _ in 0..slashes {
                    cur.push('\\');
                }
                slashes = 0;
                if (c == ' ' || c == '\t') && !open {
                    if started || !cur.is_empty() {
                        out.push(std::mem::take(&mut cur));
                    }
                    started = false;
                } else {
                    cur.push(c);
                    started = true;
                }
            }
        }
    }
    for _ in 0..slashes {
        cur.push('\\');
    }
    if started || !cur.is_empty() {
        out.push(cur);
    }
    out
}

#[test]
fn the_child_reads_the_arguments_back() {
    let args = [r"C:\a dir\", "", r#"say "hi""#, r"\\srv\share", "x\ty", "plain"];
    let line = rendered(r"C:\Program Files\n.exe", &args);
    let back = split(&line);
    assert_eq!(back[0], r"C:\Program Files\n.exe");
    assert_eq!(&back[1..], &args);
}
