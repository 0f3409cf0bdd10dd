use vaultify::error::Error;
use vaultify::secrets::{parse, parse_line, split_lines, Reason};

#[test]
fn pass_v1_simple() {
    const SECRET: &str = r#"secret/production/third-party#api-key"#;

    let secrets = parse(SECRET).unwrap();
    assert_eq!(secrets.len(), 1);

    let entry = secrets.first().unwrap();
    assert_eq!(entry.mount, "secret");
    assert_eq!(entry.path, "production/third-party");
    assert_eq!(entry.secret, "api-key");
    assert_eq!(entry.name(), "PRODUCTION_THIRD_PARTY_API_KEY")
}

#[test]
fn pass_v1_1() {
    const SECRET: &str = r#"production/another-third-party#bla
production/another-third-party/another/path#bla
hackathon=production/another-third-party#bla3
hackathon=production/another-third-party#bla"#;

    let secrets = parse(SECRET).unwrap();
    assert_eq!(secrets.len(), 4);
}

#[test]
fn pass_v1_2() {
    const SECRET: &str = r#"mnt/foo#bar
foo/bar#baz
FOO=mnt/bar#baz
BAR=foo/baz#quix
single_underscore=foo/single#underscore
double__underscore=foo/double#underscore
_leading_underscore=foo/double#underscore"#;

    let secrets = parse(SECRET).unwrap();
    assert_eq!(secrets.len(), 7);
}

#[test]
fn pass_v1_variables() {
    const SECRET: &str = r#"BAR_BAZ=foo/bar#baz"#;
    let secrets = parse(SECRET).unwrap();
    assert_eq!(secrets.len(), 1);

    let entry = secrets.first().unwrap();
    assert_eq!(entry.name.as_deref().unwrap(), "BAR_BAZ");
    assert_eq!(entry.mount, "foo");
    assert_eq!(entry.path, "bar");
    assert_eq!(entry.secret, "baz");
    assert_eq!(entry.name(), "BAR_BAZ")
}

#[test]
fn pass_v1_special_chars() {
    const SECRET: &str = r#"mnt/foob@ar#baz"#;

    let secrets = parse(SECRET).unwrap();
    assert_eq!(secrets.len(), 1);

    let entry = secrets.first().unwrap();
    assert!(entry.name.is_none());
    assert_eq!(entry.mount, "mnt");
    assert_eq!(entry.path, "foob@ar");
    assert_eq!(entry.secret, "baz");
    assert_eq!(entry.name(), "FOOB_AR_BAZ")
}

#[test]
fn fail_v1_ambigious() {
    const SECRET: &str = r#"foo#bar/baz#quix
FOO=foo=bar/baz#quix"#;

    assert!(parse(SECRET).is_err());
}

#[test]
fn fail_v1_wrong_envvar_name() {
    const SECRET: &str = r#"5_shouldnt_lead_with_numbers=testing#secret"#;

    assert!(parse(SECRET).is_err());
}

#[test]
fn pass_v1_empty() {
    let secrets = parse("").unwrap();
    assert!(secrets.is_empty());
}

#[test]
fn pass_v1_empty_line() {
    let secrets = parse(
        r#"foo/bar#baz

 
FOO=mnt/bar#baz"#,
    )
    .unwrap();
    assert_eq!(secrets.len(), 2);
}

#[test]
fn derived_name_of_plain_reference() {
    let secrets = parse("mount/path#key").unwrap();
    assert_eq!(secrets.len(), 1);
    assert_eq!(secrets[0].mount, "mount");
    assert_eq!(secrets[0].path, "path");
    assert_eq!(secrets[0].secret, "key");
    assert!(secrets[0].name.is_none());
    assert_eq!(secrets[0].name(), "PATH_KEY");
}

#[test]
fn explicit_name_is_kept() {
    let secrets = parse("FOO=mnt/bar#baz").unwrap();
    assert_eq!(secrets.len(), 1);
    assert_eq!(secrets[0].name.as_deref(), Some("FOO"));
    assert_eq!(secrets[0].name(), "FOO");
}

#[test]
fn leading_digit_fails_on_line_one() {
    let err = parse("5bad=mnt/path#key").unwrap_err();
    assert_eq!(
        err,
        Error::Parse {
            err: "env vars must not start with a number".to_string(),
            lc: 1,
            line: "5bad=mnt/path#key".to_string(),
        }
    );
}

#[test]
fn white_space_only_is_empty() {
    assert!(parse(" ").unwrap().is_empty());
    assert!(parse("\n\n").unwrap().is_empty());
    assert!(parse(" \t \r\n\u{a0}\u{3000}\n  ").unwrap().is_empty());
}

#[test]
fn each_reason_has_its_line() {
    let cases = [
        ("/path#key", Reason::EmptyMount, "mount cannot be empty"),
        ("mnt/#key", Reason::EmptyPath, "path cannot be empty"),
        ("mnt/path#", Reason::EmptySecret, "secret cannot be empty"),
        ("mnt path", Reason::Unparsable, "unable to parse line"),
        ("1=mnt/path#key", Reason::LeadingDigit, "env vars must not start with a number"),
    ];
    for (line, reason, text) in cases {
        let chars: Vec<char> = line.chars().collect();
        assert_eq!(parse_line(&chars).unwrap_err(), reason);
        assert_eq!(reason.as_str(), text);
        let input = format!("ok/path#key\n\n{}\nlater/path#key", line);
        assert_eq!(
            parse(&input).unwrap_err(),
            Error::Parse { err: text.to_string(), lc: 3, line: line.to_string() }
        );
    }
}

#[test]
fn first_bad_line_is_reported() {
    let err = parse("a/b#c\nbad\n/also#bad").unwrap_err();
    assert_eq!(
        err,
        Error::Parse { err: "unable to parse line".to_string(), lc: 2, line: "bad".to_string() }
    );
}

#[test]
fn empty_name_asks_for_a_generated_one() {
    let secrets = parse("=mnt/path#key").unwrap();
    assert!(secrets[0].name.is_none());
    assert_eq!(secrets[0].name(), "PATH_KEY");
}

#[test]
fn key_is_the_rest_of_the_line() {
    let secrets = parse("mnt/path#key#with=odd/chars \u{e9}").unwrap();
    assert_eq!(secrets[0].secret, "key#with=odd/chars \u{e9}");
    assert_eq!(secrets[0].name(), "PATH_KEY_WITH_ODD_CHARS_\u{e9}");
}

#[test]
fn lines_end_at_line_feeds() {
    let text = |lines: Vec<Vec<char>>| -> Vec<String> {
        lines.into_iter().map(|l| l.into_iter().collect()).collect()
    };
    assert_eq!(text(split_lines("")), Vec::<String>::new());
    assert_eq!(text(split_lines("a")), vec!["a"]);
    assert_eq!(text(split_lines("a\n")), vec!["a"]);
    assert_eq!(text(split_lines("a\n\nb")), vec!["a", "", "b"]);
    assert_eq!(text(split_lines("a\r\nb\r")), vec!["a", "b\r"]);
    assert_eq!(text(split_lines("\r\n\n")), vec!["", ""]);
    assert_eq!(text(split_lines("a\rb\r\r\n")), vec!["a\rb\r"]);
    for input in ["", "a", "a\n", "\n", "a\r\n\r\nb\r", "x\ry\n\r", "\r", "\r\n", "a\n\n"] {
        let expected: Vec<String> = input.lines().map(|l| l.to_string()).collect();
        assert_eq!(text(split_lines(input)), expected);
    }
}

#[test]
fn carriage_returns_before_line_feeds_are_dropped() {
    let secrets = parse("a/b#c\r\nX=d/e#f\r\n").unwrap();
    assert_eq!(secrets.len(), 2);
    assert_eq!(secrets[0].secret, "c");
    assert_eq!(secrets[1].secret, "f");
}

#[test]
fn a_file_declares_its_lines_in_order() {
    let lines = ["A=m1/p/1#k1", "m2/p2#k 2", "_b9=m-3/p@3/x#k#3", "m4/p4#\u{e9}"];
    let file: String = lines.iter().map(|l| format!("{}\n", l)).collect();
    let secrets = parse(&file).unwrap();
    let found: Vec<(Option<&str>, &str, &str, &str)> = secrets
        .iter()
        .map(|s| (s.name.as_deref(), s.mount.as_str(), s.path.as_str(), s.secret.as_str()))
        .collect();
    assert_eq!(
        found,
        vec![
            (Some("A"), "m1", "p/1", "k1"),
            (None, "m2", "p2", "k 2"),
            (Some("_b9"), "m-3", "p@3/x", "k#3"),
            (None, "m4", "p4", "\u{e9}"),
        ]
    );
    let names: Vec<String> = secrets.iter().map(|s| s.name()).collect();
    assert_eq!(names, vec!["A", "P2_K_2", "_b9", "P4_\u{e9}"]);
    assert_eq!(secrets[1].duplicate().name(), "P2_K_2");
}
