//! The environment that a command is started in.
//!
//! An environment is a list of variables in which no name occurs twice.
//! Setting a variable whose name is there already replaces its value in place;
//! a new name goes to the end.

use vstd::prelude::*;
use vstd::string::{StringExecFns, StringSliceAdditionalSpecFns};
use vstd::utf8::encode_utf8;

use crate::error::{Error, ErrorView};
use crate::secrets::Secret;
use crate::text::{decimal, decimal_string, pair_views, string_views};

verus! {

/// Additional spawn options for the child process.
#[derive(Debug, Clone, Copy)]
pub struct SpawnOptions {
    /// Clear the environment of the spawned process.
    ///
    /// If this is false, the spawned process inherits all environment
    /// variables of the current process as well.
    pub clear_env: bool,
}

/// A variable as a value: its name and what it holds.
pub type Var = (Seq<char>, Seq<char>);

/// The secrets as variables: each name with its value.
pub open spec fn secret_vars(secrets: Seq<Secret>) -> Seq<Var> {
    Seq::new(secrets.len(), |i: int| (secrets[i].name@, secrets[i].secret@))
}

/// The first position at or after `from` whose variable is called `name`, or
/// the length of `vars` if there is none.
pub open spec fn find_var(vars: Seq<Var>, name: Seq<char>, from: int) -> int
    decreases vars.len() - from,
{
    if 0 <= from < vars.len() && vars[from].0 != name {
        find_var(vars, name, from + 1)
    } else {
        from
    }
}

/// Whether a variable called `name` is in `vars`.
pub open spec fn has_var(vars: Seq<Var>, name: Seq<char>) -> bool {
    find_var(vars, name, 0) < vars.len()
}

/// What the variable called `name` holds, if it is in `vars`.
pub open spec fn value_of(vars: Seq<Var>, name: Seq<char>) -> Option<Seq<char>> {
    if has_var(vars, name) {
        Some(vars[find_var(vars, name, 0)].1)
    } else {
        None
    }
}

/// `vars` after `name` is set to `value`.
pub open spec fn assign(vars: Seq<Var>, name: Seq<char>, value: Seq<char>) -> Seq<Var> {
    if has_var(vars, name) {
        vars.update(find_var(vars, name, 0), (name, value))
    } else {
        vars.push((name, value))
    }
}

/// `vars` after the first `n` of `entries` are set, in order.
pub open spec fn assign_all(vars: Seq<Var>, entries: Seq<Var>, n: int) -> Seq<Var>
    decreases n,
{
    if n <= 0 {
        vars
    } else {
        assign(assign_all(vars, entries, n - 1), entries[n - 1].0, entries[n - 1].1)
    }
}

/// The names among the first `n` of `entries` that were there already when
/// they were set, one for each time that a value was replaced.
pub open spec fn replaced(vars: Seq<Var>, entries: Seq<Var>, n: int) -> Seq<Seq<char>>
    decreases n,
{
    if n <= 0 {
        Seq::empty()
    } else if has_var(assign_all(vars, entries, n - 1), entries[n - 1].0) {
        replaced(vars, entries, n - 1).push(entries[n - 1].0)
    } else {
        replaced(vars, entries, n - 1)
    }
}

/// The variables that the command starts with, before the secrets are set:
/// none, or the inherited ones, a later one replacing an earlier one of the
/// same name.
pub open spec fn base_env(inherited: Seq<Var>, clear_env: bool) -> Seq<Var> {
    if clear_env {
        Seq::empty()
    } else {
        assign_all(Seq::empty(), inherited, inherited.len() as int)
    }
}

/// The variables that the command starts with.
pub open spec fn environment(inherited: Seq<Var>, secrets: Seq<Var>, clear_env: bool) -> Seq<Var> {
    assign_all(base_env(inherited, clear_env), secrets, secrets.len() as int)
}

/// No name occurs twice in `vars`.
pub open spec fn distinct_names(vars: Seq<Var>) -> bool {
    forall|i: int, j: int| 0 <= i < j < vars.len() ==> (#[trigger] vars[i]).0 != (#[trigger] vars[j]).0
}

/// Where the search for a name ends: at the first variable of that name.
pub proof fn lemma_find_var(vars: Seq<Var>, name: Seq<char>, from: int)
    requires
        0 <= from <= vars.len(),
    ensures
        from <= find_var(vars, name, from) <= vars.len(),
        forall|i: int| from <= i < find_var(vars, name, from) ==> (#[trigger] vars[i]).0 != name,
        find_var(vars, name, from) < vars.len() ==> vars[find_var(vars, name, from)].0 == name,
    decreases vars.len() - from,
{
    if from < vars.len() && vars[from].0 != name {
        lemma_find_var(vars, name, from + 1);
    }
}

/// The first variable of a name is where the search for it ends.
pub proof fn lemma_find_var_unique(vars: Seq<Var>, name: Seq<char>, from: int, at: int)
    requires
        0 <= from <= at <= vars.len(),
        forall|i: int| from <= i < at ==> (#[trigger] vars[i]).0 != name,
        at < vars.len() ==> vars[at].0 == name,
    ensures
        find_var(vars, name, from) == at,
    decreases at - from,
{
    if from < at {
        lemma_find_var_unique(vars, name, from + 1, at);
    }
}

/// Sets the variable `name` to `value`. Returns whether a variable of that
/// name was there already.
pub fn set_var(vars: &mut Vec<(String, String)>, name: String, value: String) -> (was_there: bool)
    ensures
        pair_views(final(vars)@) == assign(pair_views(old(vars)@), name@, value@),
        was_there == has_var(pair_views(old(vars)@), name@),
{
    let ghost before = pair_views(vars@);
    let mut i: usize = 0;
    while i < vars.len() && vars[i].0 != name
        invariant
            i <= vars.len(),
            vars@ == old(vars)@,
            before == pair_views(vars@),
            find_var(before, name@, 0) == find_var(before, name@, i as int),
        decreases vars.len() - i,
    {
        i += 1;
    }
    if i < vars.len() {
        vars.set(i, (name, value));
        proof {
            assert(pair_views(vars@) == before.update(i as int, (name@, value@)));
        }
        true
    } else {
        vars.push((name, value));
        proof {
            assert(pair_views(vars@) == before.push((name@, value@)));
        }
        false
    }
}

/// The environment of a command, and the names whose values the secrets
/// replaced.
pub struct Environment {
    /// The variables, no name twice.
    pub vars: Vec<(String, String)>,
    /// The name of each variable that was there already when a secret was set
    /// to it, once for each time.
    pub overwritten: Vec<String>,
}

/// Builds the environment of the command: the inherited variables unless
/// `clear_env` is set, then each secret in order. A secret replaces a variable
/// of its name, an inherited one or an earlier secret, and the name is noted.
pub fn build_env(
    inherited: &Vec<(String, String)>,
    secrets: &Vec<Secret>,
    opts: &SpawnOptions,
) -> (env: Environment)
    ensures
        pair_views(env.vars@) == environment(
            pair_views(inherited@),
            secret_vars(secrets@),
            opts.clear_env,
        ),
        string_views(env.overwritten@) == replaced(
            base_env(pair_views(inherited@), opts.clear_env),
            secret_vars(secrets@),
            secrets.len() as int,
        ),
        distinct_names(pair_views(env.vars@)),
{
    proof {
        lemma_assign_all_distinct(
            Seq::empty(),
            pair_views(inherited@),
            inherited.len() as int,
        );
        lemma_assign_all_distinct(
            base_env(pair_views(inherited@), opts.clear_env),
            secret_vars(secrets@),
            secrets.len() as int,
        );
    }
    let mut vars: Vec<(String, String)> = Vec::new();
    proof {
        assert(pair_views(vars@) == Seq::<Var>::empty());
    }
    if !opts.clear_env {
        let mut i: usize = 0;
        while i < inherited.len()
            invariant
                i <= inherited.len(),
                pair_views(vars@) == assign_all(Seq::empty(), pair_views(inherited@), i as int),
            decreases inherited.len() - i,
        {
            set_var(&mut vars, inherited[i].0.clone(), inherited[i].1.clone());
            i += 1;
        }
    }
    let ghost base = base_env(pair_views(inherited@), opts.clear_env);
    let ghost entries = secret_vars(secrets@);
    let mut overwritten: Vec<String> = Vec::new();
    proof {
        assert(string_views(overwritten@) == Seq::<Seq<char>>::empty());
    }
    let mut k: usize = 0;
    while k < secrets.len()
        invariant
            k <= secrets.len(),
            entries == secret_vars(secrets@),
            pair_views(vars@) == assign_all(base, entries, k as int),
            string_views(overwritten@) == replaced(base, entries, k as int),
        decreases secrets.len() - k,
    {
        let was_there = set_var(&mut vars, secrets[k].name.clone(), secrets[k].secret.clone());
        if was_there {
            let ghost before = string_views(overwritten@);
            overwritten.push(secrets[k].name.clone());
            proof {
                assert(string_views(overwritten@) == before.push(secrets[k as int].name@));
            }
        }
        k += 1;
    }
    Environment { vars, overwritten }
}

/// What the last of the first `n` of `entries` that is called `name` holds.
pub open spec fn last_value(entries: Seq<Var>, name: Seq<char>, n: int) -> Option<Seq<char>>
    decreases n,
{
    if n <= 0 {
        None
    } else if entries[n - 1].0 == name {
        Some(entries[n - 1].1)
    } else {
        last_value(entries, name, n - 1)
    }
}

/// Setting a variable gives it the new value and leaves every other variable
/// as it was.
pub proof fn lemma_assign_value(vars: Seq<Var>, name: Seq<char>, value: Seq<char>, other: Seq<char>)
    ensures
        value_of(assign(vars, name, value), other) == if other == name {
            Some(value)
        } else {
            value_of(vars, other)
        },
{
    let after = assign(vars, name, value);
    let at = find_var(vars, name, 0);
    let there = find_var(vars, other, 0);
    lemma_find_var(vars, name, 0);
    lemma_find_var(vars, other, 0);
    if other == name {
        lemma_find_var_unique(after, name, 0, at);
    } else {
        assert forall|i: int| 0 <= i < there implies (#[trigger] after[i]).0 != other by {
            assert(vars[i].0 != other);
        }
        if there < vars.len() {
            lemma_find_var_unique(after, other, 0, there);
        } else {
            lemma_find_var_unique(after, other, 0, after.len() as int);
        }
    }
}

/// Setting a variable never puts a name in twice.
pub proof fn lemma_assign_distinct(vars: Seq<Var>, name: Seq<char>, value: Seq<char>)
    requires
        distinct_names(vars),
    ensures
        distinct_names(assign(vars, name, value)),
{
    lemma_find_var(vars, name, 0);
    let after = assign(vars, name, value);
    assert forall|i: int, j: int| 0 <= i < j < after.len() implies (#[trigger] after[i]).0 != (
    #[trigger] after[j]).0 by {
        if has_var(vars, name) {
            assert(vars[i].0 != vars[j].0);
        } else if j < vars.len() {
            assert(vars[i].0 != vars[j].0);
        } else {
            assert(vars[i].0 != name);
        }
    }
}

/// After a run of settings a variable holds what the last setting of its name
/// gave it, or else what it held before.
pub proof fn lemma_assign_all_value(vars: Seq<Var>, entries: Seq<Var>, n: int, name: Seq<char>)
    ensures
        value_of(assign_all(vars, entries, n), name) == match last_value(entries, name, n) {
            Some(v) => Some(v),
            None => value_of(vars, name),
        },
    decreases n,
{
    if n > 0 {
        lemma_assign_all_value(vars, entries, n - 1, name);
        lemma_assign_value(
            assign_all(vars, entries, n - 1),
            entries[n - 1].0,
            entries[n - 1].1,
            name,
        );
    }
}

/// A run of settings never puts a name in twice.
pub proof fn lemma_assign_all_distinct(vars: Seq<Var>, entries: Seq<Var>, n: int)
    requires
        distinct_names(vars),
    ensures
        distinct_names(assign_all(vars, entries, n)),
    decreases n,
{
    if n > 0 {
        lemma_assign_all_distinct(vars, entries, n - 1);
        lemma_assign_distinct(assign_all(vars, entries, n - 1), entries[n - 1].0, entries[n - 1].1);
    }
}

/// In the environment of a command no name occurs twice, and each variable
/// holds the value of the last secret of its name, or else, unless the
/// environment was cleared, of the last inherited variable of its name.
pub proof fn law_environment_holds_last_values(
    inherited: Seq<Var>,
    secrets: Seq<Var>,
    clear_env: bool,
    name: Seq<char>,
)
    ensures
        distinct_names(environment(inherited, secrets, clear_env)),
        value_of(environment(inherited, secrets, clear_env), name) == match last_value(
            secrets,
            name,
            secrets.len() as int,
        ) {
            Some(v) => Some(v),
            None => if clear_env {
                None
            } else {
                last_value(inherited, name, inherited.len() as int)
            },
        },
{
    let empty = Seq::<Var>::empty();
    let base = base_env(inherited, clear_env);
    lemma_assign_all_distinct(empty, inherited, inherited.len() as int);
    lemma_assign_all_distinct(base, secrets, secrets.len() as int);
    lemma_assign_all_value(empty, inherited, inherited.len() as int, name);
    lemma_assign_all_value(base, secrets, secrets.len() as int, name);
    assert(value_of(empty, name) is None);
}

/// A cleared environment holds the secrets and nothing else: what was
/// inherited has no part in it, each of its variables is called like a secret,
/// and each name holds the value of the last secret of that name.
pub proof fn law_cleared_environment_holds_only_secrets(
    inherited: Seq<Var>,
    secrets: Seq<Var>,
    name: Seq<char>,
)
    ensures
        environment(inherited, secrets, true) == environment(Seq::empty(), secrets, true),
        value_of(environment(inherited, secrets, true), name) == last_value(
            secrets,
            name,
            secrets.len() as int,
        ),
        has_var(environment(inherited, secrets, true), name) <==> exists|i: int|
            0 <= i < secrets.len() && (#[trigger] secrets[i]).0 == name,
{
    law_environment_holds_last_values(inherited, secrets, true, name);
    lemma_last_value_is_some(secrets, name, secrets.len() as int);
}

/// A name has a last value among the first `n` entries exactly if one of them
/// is called so.
pub proof fn lemma_last_value_is_some(entries: Seq<Var>, name: Seq<char>, n: int)
    requires
        n <= entries.len(),
    ensures
        last_value(entries, name, n) is Some <==> exists|i: int|
            0 <= i < n && (#[trigger] entries[i]).0 == name,
    decreases n,
{
    if n > 0 {
        lemma_last_value_is_some(entries, name, n - 1);
        if entries[n - 1].0 != name {
            if exists|i: int| 0 <= i < n && (#[trigger] entries[i]).0 == name {
                let i = choose|i: int| 0 <= i < n && (#[trigger] entries[i]).0 == name;
                assert(0 <= i < n - 1 && entries[i].0 == name);
            }
        }
    }
}

/// The first position at or after `from` that holds a zero byte, or the
/// length of `bytes` if there is none.
pub open spec fn first_zero(bytes: Seq<u8>, from: int) -> int
    decreases bytes.len() - from,
{
    if 0 <= from < bytes.len() && bytes[from] != 0 {
        first_zero(bytes, from + 1)
    } else {
        from
    }
}

/// Where the first zero byte stands in the UTF-8 form of `s`, if there is
/// one. The operating system takes no string with such a byte.
pub open spec fn nul_position(s: Seq<char>) -> Option<int> {
    let at = first_zero(encode_utf8(s), 0);
    if at < encode_utf8(s).len() {
        Some(at)
    } else {
        None
    }
}

/// What is reported of a string with a zero byte at `at`.
pub open spec fn nul_message(at: int) -> Seq<char> {
    "nul byte found in provided data at position: "@ + decimal(at as nat)
}

/// Finds the first zero byte of `s`.
pub fn find_nul(s: &str) -> (at: Option<usize>)
    ensures
        match at {
            Some(i) => nul_position(s@) == Some(i as int),
            None => nul_position(s@) is None,
        },
{
    let bytes = s.as_bytes();
    let mut i: usize = 0;
    while i < bytes.len()
        invariant
            i <= bytes.len(),
            bytes@ == encode_utf8(s@),
            first_zero(bytes@, 0) == first_zero(bytes@, i as int),
        decreases bytes.len() - i,
    {
        if bytes[i] == 0 {
            return Some(i);
        }
        i += 1;
    }
    None
}

/// Accepts a string that the operating system takes.
pub fn check_c_string(s: &str) -> (r: Result<(), Error>)
    ensures
        match r {
            Ok(_) => nul_position(s@) is None,
            Err(e) => nul_position(s@) is Some && e@ == ErrorView::Conversion(
                nul_message(nul_position(s@)->0),
            ),
        },
{
    match find_nul(s) {
        None => Ok(()),
        Some(at) => {
            let mut message = "nul byte found in provided data at position: ".to_owned();
            message.append(decimal_string(at).as_str());
            Err(Error::Conversion(message))
        },
    }
}

/// A variable as the operating system takes it: name, `=`, value.
pub open spec fn entry_text(var: Var) -> Seq<char> {
    var.0 + seq!['='] + var.1
}

/// The variables as the operating system takes them.
pub open spec fn entries_text(vars: Seq<Var>) -> Seq<Seq<char>> {
    Seq::new(vars.len(), |i: int| entry_text(vars[i]))
}

/// The first position at or after `from` whose string holds a zero byte, or
/// the length of `strings` if there is none.
pub open spec fn first_refused(strings: Seq<Seq<char>>, from: int) -> int
    decreases strings.len() - from,
{
    if 0 <= from < strings.len() && nul_position(strings[from]) is None {
        first_refused(strings, from + 1)
    } else {
        from
    }
}

/// The first string with a zero byte is where the search for one ends.
pub proof fn lemma_first_refused_unique(strings: Seq<Seq<char>>, from: int, at: int)
    requires
        0 <= from <= at <= strings.len(),
        forall|i: int| from <= i < at ==> nul_position(#[trigger] strings[i]) is None,
        at < strings.len() ==> nul_position(strings[at]) is Some,
    ensures
        first_refused(strings, from) == at,
    decreases at - from,
{
    if from < at {
        lemma_first_refused_unique(strings, from + 1, at);
    }
}

/// What is handed to the operating system to start a command.
pub struct Launch {
    /// The command, looked up on the search path.
    pub cmd: String,
    /// The arguments, each as it was given.
    pub args: Vec<String>,
    /// The environment, one `NAME=value` for each variable.
    pub env: Vec<String>,
    /// The names whose values the secrets replaced.
    pub overwritten: Vec<String>,
}

/// Every string that starting the command hands to the operating system: the
/// command, its arguments, the variables.
pub open spec fn launch_strings(cmd: Seq<char>, args: Seq<Seq<char>>, vars: Seq<Var>) -> Seq<
    Seq<char>,
> {
    seq![cmd] + args + entries_text(vars)
}

/// Prepares the start of `cmd`: its arguments unchanged, and the environment
/// that [`build_env`] gives. Fails on the first string with a zero byte,
/// looking at the command, then the arguments, then the variables.
pub fn plan_spawn(
    cmd: &str,
    args: &Vec<String>,
    inherited: &Vec<(String, String)>,
    secrets: &Vec<Secret>,
    opts: &SpawnOptions,
) -> (r: Result<Launch, Error>)
    ensures
        ({
            let vars = environment(pair_views(inherited@), secret_vars(secrets@), opts.clear_env);
            let strings = launch_strings(cmd@, string_views(args@), vars);
            let bad = first_refused(strings, 0);
            match r {
                Ok(launch) => {
                    &&& bad == strings.len()
                    &&& launch.cmd@ == cmd@
                    &&& string_views(launch.args@) == string_views(args@)
                    &&& string_views(launch.env@) == entries_text(vars)
                    &&& string_views(launch.overwritten@) == replaced(
                        base_env(pair_views(inherited@), opts.clear_env),
                        secret_vars(secrets@),
                        secrets.len() as int,
                    )
                },
                Err(e) => {
                    &&& bad < strings.len()
                    &&& e@ == ErrorView::Conversion(nul_message(nul_position(strings[bad])->0))
                },
            }
        }),
{
    let ghost vars = environment(pair_views(inherited@), secret_vars(secrets@), opts.clear_env);
    let ghost strings = launch_strings(cmd@, string_views(args@), vars);
    match check_c_string(cmd) {
        Err(e) => {
            proof {
                lemma_first_refused_unique(strings, 0, 0);
            }
            return Err(e);
        },
        Ok(_) => {},
    }
    let mut out_args: Vec<String> = Vec::new();
    let mut i: usize = 0;
    while i < args.len()
        invariant
            i <= args.len(),
            vars == environment(pair_views(inherited@), secret_vars(secrets@), opts.clear_env),
            strings == launch_strings(cmd@, string_views(args@), vars),
            forall|j: int| 0 <= j < i + 1 ==> nul_position(#[trigger] strings[j]) is None,
            string_views(out_args@) == string_views(args@).subrange(0, i as int),
        decreases args.len() - i,
    {
        assert(strings[i + 1] == args[i as int]@);
        match check_c_string(args[i].as_str()) {
            Err(e) => {
                proof {
                    assert(strings.len() == 1 + args.len() + vars.len());
                    lemma_first_refused_unique(strings, 0, i + 1);
                }
                return Err(e);
            },
            Ok(_) => {},
        }
        let ghost before = string_views(out_args@);
        out_args.push(args[i].clone());
        proof {
            assert(string_views(out_args@) == before.push(args[i as int]@));
            assert(string_views(args@).subrange(0, i + 1) == before.push(args[i as int]@));
        }
        i += 1;
    }
    let env = build_env(inherited, secrets, opts);
    let mut out_env: Vec<String> = Vec::new();
    let mut k: usize = 0;
    while k < env.vars.len()
        invariant
            k <= env.vars.len(),
            pair_views(env.vars@) == vars,
            vars == environment(pair_views(inherited@), secret_vars(secrets@), opts.clear_env),
            strings == launch_strings(cmd@, string_views(args@), vars),
            forall|j: int| 0 <= j < args.len() + 1 + k ==> nul_position(#[trigger] strings[j]) is None,
            string_views(out_env@) == entries_text(vars).subrange(0, k as int),
        decreases env.vars.len() - k,
    {
        let mut entry = env.vars[k].0.clone();
        entry.append("=");
        entry.append(env.vars[k].1.as_str());
        proof {
            reveal_strlit("=");
            assert("="@ == seq!['=']);
            assert(pair_views(env.vars@)[k as int] == (env.vars[k as int].0@, env.vars[k as int].1@));
            assert(entry@ == entry_text(vars[k as int]));
            assert(strings[args.len() + 1 + k] == entry@);
        }
        match check_c_string(entry.as_str()) {
            Err(e) => {
                proof {
                    assert(strings.len() == 1 + args.len() + vars.len());
                    lemma_first_refused_unique(strings, 0, args.len() + 1 + k);
                }
                return Err(e);
            },
            Ok(_) => {},
        }
        let ghost before = string_views(out_env@);
        out_env.push(entry);
        proof {
            assert(string_views(out_env@) == before.push(entry@));
            assert(entries_text(vars).subrange(0, k + 1) == before.push(entry@));
        }
        k += 1;
    }
    proof {
        assert(strings.len() == 1 + args.len() + vars.len());
        assert(entries_text(vars).subrange(0, k as int) == entries_text(vars));
        assert(string_views(args@).subrange(0, i as int) == string_views(args@));
        lemma_first_refused_unique(strings, 0, strings.len() as int);
    }
    Ok(Launch { cmd: cmd.to_owned(), args: out_args, env: out_env, overwritten: env.overwritten })
}

} // verus!
