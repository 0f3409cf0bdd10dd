use vaultify::error::Error;

#[test]
fn parse_error_counts_lines_from_one() {
    assert_eq!(
        Error::parse("unable to parse line", 0, "x"),
        Error::Parse { err: "unable to parse line".to_string(), lc: 1, line: "x".to_string() }
    );
    assert_eq!(
        Error::parse("e", 41, "l"),
        Error::Parse { err: "e".to_string(), lc: 42, line: "l".to_string() }
    );
}

#[test]
fn errors_read_as_sentences() {
    assert_eq!(Error::IO("x".to_string()).message(), "IO error: x");
    assert_eq!(Error::NotFound("x".to_string()).message(), "Element not found: x");
    assert_eq!(
        Error::parse("mount cannot be empty", 11, "/a#b").message(),
        "Parse error: mount cannot be empty (line 12: `/a#b`)"
    );
    assert_eq!(Error::Conversion("x".to_string()).message(), "Conversion error: x");
    assert_eq!(Error::Deserialization("x".to_string()).message(), "Deserialization error: x");
    assert_eq!(Error::MaxRetries.message(), "Max number of retries reached");
    assert_eq!(Error::Reqwest("x".to_string()).message(), "Reqwest error: x");
    assert_eq!(Error::Execution("x".to_string()).message(), "Execution error: x");
}
