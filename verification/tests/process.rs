use vaultify::error::Error;
use vaultify::process::{build_env, check_c_string, find_nul, plan_spawn, set_var, SpawnOptions};
use vaultify::secrets::Secret;

fn pairs(items: &[(&str, &str)]) -> Vec<(String, String)> {
    items.iter().map(|(k, v)| (k.to_string(), v.to_string())).collect()
}

fn secrets(items: &[(&str, &str)]) -> Vec<Secret> {
    items.iter().map(|(k, v)| Secret { name: k.to_string(), secret: v.to_string() }).collect()
}

fn strings(items: &[&str]) -> Vec<String> {
    items.iter().map(|s| s.to_string()).collect()
}

#[test]
fn setting_a_variable_replaces_or_appends() {
    let mut vars = pairs(&[("A", "1"), ("B", "2")]);
    assert!(!set_var(&mut vars, "C".to_string(), "3".to_string()));
    assert!(set_var(&mut vars, "A".to_string(), "4".to_string()));
    assert_eq!(vars, pairs(&[("A", "4"), ("B", "2"), ("C", "3")]));
}

#[test]
fn cleared_environment_holds_exactly_the_secrets() {
    let inherited = pairs(&[("PATH", "/bin"), ("HOME", "/root"), ("A", "old")]);
    let env = build_env(
        &inherited,
        &secrets(&[("A", "1"), ("B", "2")]),
        &SpawnOptions { clear_env: true },
    );
    assert_eq!(env.vars, pairs(&[("A", "1"), ("B", "2")]));
    assert!(env.overwritten.is_empty());
    let none = build_env(&inherited, &Vec::new(), &SpawnOptions { clear_env: true });
    assert!(none.vars.is_empty());
}

#[test]
fn inherited_variables_stay_unless_a_secret_replaces_them() {
    let inherited = pairs(&[("PATH", "/bin"), ("A", "old"), ("HOME", "/root")]);
    let env = build_env(
        &inherited,
        &secrets(&[("A", "1"), ("B", "2")]),
        &SpawnOptions { clear_env: false },
    );
    assert_eq!(env.vars, pairs(&[("PATH", "/bin"), ("A", "1"), ("HOME", "/root"), ("B", "2")]));
    assert_eq!(env.overwritten, strings(&["A"]));
}

#[test]
fn the_last_secret_of_a_name_wins_with_a_note_each_time() {
    let env = build_env(
        &pairs(&[("X", "0")]),
        &secrets(&[("X", "1"), ("Y", "a"), ("X", "2"), ("Y", "b"), ("X", "3")]),
        &SpawnOptions { clear_env: true },
    );
    assert_eq!(env.vars, pairs(&[("X", "3"), ("Y", "b")]));
    assert_eq!(env.overwritten, strings(&["X", "Y", "X"]));
}

#[test]
fn a_repeated_inherited_name_keeps_its_last_value() {
    let env = build_env(
        &pairs(&[("X", "0"), ("Y", "1"), ("X", "2")]),
        &Vec::new(),
        &SpawnOptions { clear_env: false },
    );
    assert_eq!(env.vars, pairs(&[("X", "2"), ("Y", "1")]));
    assert!(env.overwritten.is_empty());
}

#[test]
fn zero_bytes_are_found_by_their_byte_position() {
    assert_eq!(find_nul(""), None);
    assert_eq!(find_nul("abc"), None);
    assert_eq!(find_nul("\0"), Some(0));
    assert_eq!(find_nul("ab\0c\0"), Some(2));
    assert_eq!(find_nul("\u{e9}\u{1f600}\0"), Some(6));
    assert_eq!(check_c_string("fine"), Ok(()));
    assert_eq!(
        check_c_string("\u{e9}\0"),
        Err(Error::Conversion("nul byte found in provided data at position: 2".to_string()))
    );
}

#[test]
fn a_launch_holds_command_arguments_and_environment() {
    let launch = plan_spawn(
        "printenv",
        &strings(&["-0", "a b", ""]),
        &pairs(&[("HOME", "/root")]),
        &secrets(&[("KEY", "va=lue"), ("HOME", "/tmp")]),
        &SpawnOptions { clear_env: false },
    )
    .unwrap();
    assert_eq!(launch.cmd, "printenv");
    assert_eq!(launch.args, strings(&["-0", "a b", ""]));
    assert_eq!(launch.env, strings(&["HOME=/tmp", "KEY=va=lue"]));
    assert_eq!(launch.overwritten, strings(&["HOME"]));
}

#[test]
fn a_launch_is_refused_at_the_first_zero_byte() {
    let opts = SpawnOptions { clear_env: true };
    let none: Vec<(String, String)> = Vec::new();
    let refused = |position: usize| {
        Error::Conversion(format!("nul byte found in provided data at position: {}", position))
    };
    assert_eq!(plan_spawn("a\0", &strings(&["\0"]), &none, &Vec::new(), &opts).err(), Some(refused(1)));
    assert_eq!(
        plan_spawn("a", &strings(&["ok", "xy\0", "\0"]), &none, &secrets(&[("\0", "")]), &opts).err(),
        Some(refused(2))
    );
    assert_eq!(
        plan_spawn("a", &strings(&["ok"]), &none, &secrets(&[("A", "1"), ("KEY", "v\0")]), &opts).err(),
        Some(refused(5))
    );
    assert_eq!(
        plan_spawn("a", &Vec::new(), &none, &secrets(&[("K", "\0"), ("K", "fine")]), &opts)
            .map(|l| l.env),
        Ok(strings(&["K=fine"]))
    );
}
