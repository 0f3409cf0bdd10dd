use regex::Regex;
use vaultify::secrets::{parse_line, Reason, Secret, SecretSpec};

const PATTERN: &str = r#"^((?<name>[a-zA-Z0-9_]*)=)?((?<mount>[a-zA-Z0-9_\-\@]*)\/)(?<path>[a-zA-Z0-9_\-\/\@]*)#(?<secret>.*)"#;

/// What the pattern makes of a line, with the checks that follow a match.
fn by_pattern(pattern: &Regex, line: &str) -> Result<(Option<String>, String, String, String), Reason> {
    let Some(capture) = pattern.captures(line) else {
        return Err(Reason::Unparsable);
    };
    let name = capture.name("name").map(|c| c.as_str().to_string()).filter(|n| !n.is_empty());
    if let Some(c) = name.as_ref().and_then(|n| n.chars().next()) {
        if c.is_numeric() {
            return Err(Reason::LeadingDigit);
        }
    }
    let mount = capture.name("mount").unwrap().as_str().to_string();
    if mount.is_empty() {
        return Err(Reason::EmptyMount);
    }
    let path = capture.name("path").unwrap().as_str().to_string();
    if path.is_empty() {
        return Err(Reason::EmptyPath);
    }
    let secret = capture.name("secret").unwrap().as_str().to_string();
    if secret.is_empty() {
        return Err(Reason::EmptySecret);
    }
    Ok((name, mount, path, secret))
}

fn by_grammar(line: &str) -> Result<(Option<String>, String, String, String), Reason> {
    let chars: Vec<char> = line.chars().collect();
    parse_line(&chars).map(|s: SecretSpec| (s.name, s.mount, s.path, s.secret))
}

fn all_lines(alphabet: &[char], length: usize) -> Vec<String> {
    let mut lines = vec![String::new()];
    for _ in 0..length {
        let mut longer = Vec::new();
        for line in &lines {
            for c in alphabet {
                let mut l = line.clone();
                l.push(*c);
                longer.push(l);
            }
        }
        lines = longer;
    }
    lines
}

#[test]
fn pass_regex_compile() {
    let pattern = Regex::new(PATTERN).unwrap();
    assert!(!pattern.to_string().is_empty())
}

#[test]
fn grammar_agrees_with_pattern_on_short_lines() {
    let pattern = Regex::new(PATTERN).unwrap();
    let alphabet = ['a', 'Z', '7', '_', '=', '/', '#', '-', '@', ' ', '\u{e9}'];
    let mut seen = 0;
    for length in 0..=4 {
        for line in all_lines(&alphabet, length) {
            assert_eq!(by_grammar(&line), by_pattern(&pattern, &line), "line {:?}", line);
            seen += 1;
        }
    }
    assert_eq!(seen, 1 + 11 + 121 + 1331 + 14641);
}

#[test]
fn grammar_agrees_with_pattern_on_longer_lines() {
    let pattern = Regex::new(PATTERN).unwrap();
    let alphabet = ['a', '1', '=', '/', '#', '-'];
    for length in 5..=7 {
        for line in all_lines(&alphabet, length) {
            assert_eq!(by_grammar(&line), by_pattern(&pattern, &line), "line {:?}", line);
        }
    }
}

#[test]
fn grammar_agrees_with_pattern_on_odd_characters() {
    let pattern = Regex::new(PATTERN).unwrap();
    let lines = [
        "a/b#c\r",
        "a/b#\r",
        "a/b#c\td",
        "A=a/b#\u{0}",
        "\u{661}=a/b#c",
        "\u{661}/b#c",
        "a=\u{e9}/b#c",
        "a/b\u{e9}#c",
        "a/b#\u{1f600}",
        "name=mount/pa/th/#k#e=y/",
        "a-b=c/d#e",
        "a@b/c@d#e",
        "a=b=c/d#e",
        "a//b#c",
        "/a/b#c",
        "a/b",
        "#",
        "/#",
        "=/#",
        "=/#x",
    ];
    for line in lines {
        assert_eq!(by_grammar(line), by_pattern(&pattern, line), "line {:?}", line);
    }
}

#[test]
fn secret_is_masked_in_diagnostics() {
    let secret = Secret { name: "API_KEY".to_string(), secret: "hunter2\u{e9}".to_string() };
    assert_eq!(secret.secret_obfuscated(), "********");
    assert_eq!(secret.to_debug_string(), r#"Secret { name: "API_KEY", secret: "********" }"#);
    assert!(!secret.to_debug_string().contains("hunter2"));
    let empty = Secret { name: "E".to_string(), secret: String::new() };
    assert_eq!(empty.secret_obfuscated(), "");
    assert_eq!(empty.to_debug_string(), r#"Secret { name: "E", secret: "" }"#);
}

#[test]
fn generated_names_follow_the_characters() {
    let spec = SecretSpec {
        name: None,
        mount: "m".to_string(),
        path: "a-b/c@d_e9".to_string(),
        secret: "k.\u{e9}\u{df}z \u{661}".to_string(),
    };
    let expected: String = "a-b/c@d_e9"
        .chars()
        .chain("_".chars())
        .chain("k.\u{e9}\u{df}z \u{661}".chars())
        .map(|c| if c.is_alphanumeric() { c.to_ascii_uppercase() } else { '_' })
        .collect();
    assert_eq!(spec.name(), expected);
    assert_eq!(spec.name(), "A_B_C_D_E9_K_\u{e9}\u{df}Z_\u{661}");
}
