//! Declarations of secrets: one line names one field of one secret document
//! and, optionally, the environment variable that receives it.
//!
//! A line reads `[NAME=]MOUNT/PATH#KEY`. `NAME` is made of letters, digits and
//! underscores, `MOUNT` may also hold `-` and `@`, `PATH` may also hold `/`,
//! and `KEY` is the rest of the line.

use vstd::prelude::*;
use vstd::string::StringExecFns;

use crate::error::{Error, ErrorView};
use crate::text::{
    ascii_uppercase, chars_of, Class, digit, is_digit, is_letter_or_number, is_space,
    lemma_run_end, lemma_run_end_after_prefix, lemma_run_end_in_prefix, lemma_run_end_unique,
    run_end, scan, space, string_of,
};

verus! {

/// Spec of a secret parsed from a declaration file.
#[derive(Debug, Clone)]
pub struct SecretSpec {
    /// The name of the environment variable (optional).
    pub name: Option<String>,
    /// The mount point of the secret in the store.
    pub mount: String,
    /// The path of the secret under the mount point.
    pub path: String,
    /// The key of the secret inside the document at that path.
    pub secret: String,
}

/// Mathematical value of a [`SecretSpec`].
pub struct SecretSpecView {
    pub name: Option<Seq<char>>,
    pub mount: Seq<char>,
    pub path: Seq<char>,
    pub secret: Seq<char>,
}

impl View for SecretSpec {
    type V = SecretSpecView;

    open spec fn view(&self) -> SecretSpecView {
        SecretSpecView {
            name: match self.name {
                Some(n) => Some(n@),
                None => None,
            },
            mount: self.mount@,
            path: self.path@,
            secret: self.secret@,
        }
    }
}

/// A secret.
pub struct Secret {
    /// The name of the environment variable.
    pub name: String,
    /// The actual secret value.
    pub secret: String,
}

/// Mathematical value of a [`Secret`].
pub struct SecretView {
    pub name: Seq<char>,
    pub secret: Seq<char>,
}

impl View for Secret {
    type V = SecretView;

    open spec fn view(&self) -> SecretView {
        SecretView { name: self.name@, secret: self.secret@ }
    }
}

/// As many asterisks as `value` has characters.
pub open spec fn masked(value: Seq<char>) -> Seq<char> {
    Seq::new(value.len(), |i: int| '*')
}

impl SecretView {
    /// How a secret is shown in diagnostics: its name, and its value masked.
    pub open spec fn debug_text(self) -> Seq<char> {
        "Secret { name: \""@ + self.name + "\", secret: \""@ + masked(self.secret) + "\" }"@
    }
}

impl Secret {
    /// The value with every character replaced by an asterisk.
    pub fn secret_obfuscated(&self) -> (s: String)
        ensures
            s@ == masked(self.secret@),
    {
        let mut s = String::new();
        for c in it: self.secret.as_str().chars()
            invariant
                it.seq() == self.secret@,
                s@ == masked(self.secret@.take(it.index())),
        {
            s.push('*');
        }
        proof {
            assert(self.secret@.take(self.secret@.len() as int) == self.secret@);
        }
        s
    }

    /// The secret as diagnostics show it. The value itself never appears.
    pub fn to_debug_string(&self) -> (s: String)
        ensures
            s@ == self@.debug_text(),
    {
        let mut s = "Secret { name: \"".to_owned();
        s.append(self.name.as_str());
        s.append("\", secret: \"");
        s.append(self.secret_obfuscated().as_str());
        s.append("\" }");
        s
    }
}

/// What a character becomes in a generated variable name.
pub open spec fn env_char(c: char) -> char {
    if is_letter_or_number(c) {
        ascii_uppercase(c)
    } else {
        '_'
    }
}

/// `s` with every character replaced by [`env_char`] of it.
pub open spec fn env_text(s: Seq<char>) -> Seq<char> {
    Seq::new(s.len(), |i: int| env_char(s[i]))
}

/// The variable name generated from a path and a key.
pub open spec fn derived_name(path: Seq<char>, secret: Seq<char>) -> Seq<char> {
    env_text(path) + seq!['_'] + env_text(secret)
}

/// Whether `name` can name an environment variable: not empty, made of
/// letters, digits and underscores, and not starting with a digit.
pub open spec fn is_env_name(name: Seq<char>) -> bool {
    &&& name.len() > 0
    &&& !is_digit(name[0])
    &&& forall|i: int| 0 <= i < name.len() ==> Class::Name.holds(#[trigger] name[i])
}

impl SecretSpecView {
    /// The name of the variable that receives the secret: the configured one,
    /// or else the one generated from path and key.
    pub open spec fn env_name(self) -> Seq<char> {
        match self.name {
            Some(n) => n,
            None => derived_name(self.path, self.secret),
        }
    }

    /// What holds of every declaration that [`parse`] returns.
    pub open spec fn wf(self) -> bool {
        &&& self.name is Some ==> is_env_name(self.name->0)
        &&& self.mount.len() > 0
        &&& forall|i: int| 0 <= i < self.mount.len() ==> Class::Mount.holds(#[trigger] self.mount[i])
        &&& self.path.len() > 0
        &&& forall|i: int| 0 <= i < self.path.len() ==> Class::Path.holds(#[trigger] self.path[i])
        &&& self.secret.len() > 0
    }
}

/// Appends to `out` the characters of `s` as they stand in a generated name.
fn push_env_text(out: &mut String, s: &str)
    ensures
        final(out)@ == old(out)@ + env_text(s@),
{
    for c in it: s.chars()
        invariant
            it.seq() == s@,
            out@ == old(out)@ + env_text(s@.take(it.index())),
    {
        proof {
            let k = it.index();
            assert(s@.take(k + 1) == s@.take(k).push(s@[k]));
            assert(env_text(s@.take(k + 1)) == env_text(s@.take(k)).push(env_char(s@[k])));
        }
        if c.is_alphanumeric() {
            out.push(c.to_ascii_uppercase());
        } else {
            out.push('_');
        }
    }
    proof {
        assert(s@.take(s@.len() as int) == s@);
    }
}

impl SecretSpec {
    /// A declaration of the same value.
    pub fn duplicate(&self) -> (copy: Self)
        ensures
            copy@ == self@,
    {
        SecretSpec {
            name: match &self.name {
                Some(n) => Some(n.clone()),
                None => None,
            },
            mount: self.mount.clone(),
            path: self.path.clone(),
            secret: self.secret.clone(),
        }
    }

    /// Returns the configured name or a generated name based on path and secret.
    pub fn name(&self) -> (name: String)
        ensures
            name@ == self@.env_name(),
    {
        match &self.name {
            Some(n) => n.clone(),
            None => {
                let mut out = String::new();
                push_env_text(&mut out, self.path.as_str());
                out.push('_');
                push_env_text(&mut out, self.secret.as_str());
                proof {
                    assert(out@ == derived_name(self.path@, self.secret@));
                }
                out
            },
        }
    }
}

/// Why a line is no declaration.
#[derive(Debug, Clone, Copy, PartialEq, Eq, Structural)]
pub enum Reason {
    /// The variable's name starts with a digit.
    LeadingDigit,
    /// Nothing stands before the first `/`.
    EmptyMount,
    /// Nothing stands between the `/` and the `#`.
    EmptyPath,
    /// Nothing follows the `#`.
    EmptySecret,
    /// The line is not of the form `[NAME=]MOUNT/PATH#KEY`.
    Unparsable,
}

impl Reason {
    /// The reason in words.
    pub open spec fn text(self) -> Seq<char> {
        match self {
            Reason::LeadingDigit => "env vars must not start with a number"@,
            Reason::EmptyMount => "mount cannot be empty"@,
            Reason::EmptyPath => "path cannot be empty"@,
            Reason::EmptySecret => "secret cannot be empty"@,
            Reason::Unparsable => "unable to parse line"@,
        }
    }

    /// The reason in words.
    pub fn as_str(self) -> (s: &'static str)
        ensures
            s@ == self.text(),
    {
        match self {
            Reason::LeadingDigit => "env vars must not start with a number",
            Reason::EmptyMount => "mount cannot be empty",
            Reason::EmptyPath => "path cannot be empty",
            Reason::EmptySecret => "secret cannot be empty",
            Reason::Unparsable => "unable to parse line",
        }
    }
}

/// Whether the line starts with a name and `=`.
pub open spec fn has_name(line: Seq<char>) -> bool {
    let n = run_end(line, 0, Class::Name);
    n < line.len() && line[n] == '='
}

/// Where the mount starts: behind the `=`, or at the start of the line.
pub open spec fn mount_start(line: Seq<char>) -> int {
    if has_name(line) {
        run_end(line, 0, Class::Name) + 1
    } else {
        0
    }
}

/// Where the mount ends.
pub open spec fn mount_end(line: Seq<char>) -> int {
    run_end(line, mount_start(line), Class::Mount)
}

/// Where the path ends.
pub open spec fn path_end(line: Seq<char>) -> int {
    run_end(line, mount_end(line) + 1, Class::Path)
}

/// Whether the line is of the form `[NAME=]MOUNT/PATH#KEY`, each part
/// possibly empty.
pub open spec fn matches_grammar(line: Seq<char>) -> bool {
    &&& mount_end(line) < line.len()
    &&& line[mount_end(line)] == '/'
    &&& path_end(line) < line.len()
    &&& line[path_end(line)] == '#'
}

/// What a line declares, or why it declares nothing. An empty name before
/// the `=` asks for a generated name.
pub open spec fn line_outcome(line: Seq<char>) -> Result<SecretSpecView, Reason> {
    let n = run_end(line, 0, Class::Name);
    let ms = mount_start(line);
    let me = mount_end(line);
    let pe = path_end(line);
    if !matches_grammar(line) {
        Err(Reason::Unparsable)
    } else if has_name(line) && n > 0 && is_digit(line[0]) {
        Err(Reason::LeadingDigit)
    } else if me == ms {
        Err(Reason::EmptyMount)
    } else if pe == me + 1 {
        Err(Reason::EmptyPath)
    } else if pe + 1 == line.len() {
        Err(Reason::EmptySecret)
    } else {
        Ok(
            SecretSpecView {
                name: if has_name(line) && n > 0 {
                    Some(line.subrange(0, n))
                } else {
                    None
                },
                mount: line.subrange(ms, me),
                path: line.subrange(me + 1, pe),
                secret: line.subrange(pe + 1, line.len() as int),
            },
        )
    }
}

/// Reads one line that is not blank.
pub fn parse_line(line: &Vec<char>) -> (r: Result<SecretSpec, Reason>)
    ensures
        match (r, line_outcome(line@)) {
            (Ok(spec), Ok(v)) => spec@ == v && v.wf(),
            (Err(reason), Err(x)) => reason == x,
            _ => false,
        },
{
    let len = line.len();
    let n = scan(line, 0, Class::Name);
    let named = n < len && line[n] == '=';
    let ms: usize = if named { n + 1 } else { 0 };
    let me = scan(line, ms, Class::Mount);
    if !(me < len && line[me] == '/') {
        return Err(Reason::Unparsable);
    }
    let pe = scan(line, me + 1, Class::Path);
    if !(pe < len && line[pe] == '#') {
        return Err(Reason::Unparsable);
    }
    if named && n > 0 && digit(line[0]) {
        return Err(Reason::LeadingDigit);
    }
    if me == ms {
        return Err(Reason::EmptyMount);
    }
    if pe == me + 1 {
        return Err(Reason::EmptyPath);
    }
    if pe + 1 == len {
        return Err(Reason::EmptySecret);
    }
    let name = if named && n > 0 { Some(string_of(line, 0, n)) } else { None };
    let spec = SecretSpec {
        name,
        mount: string_of(line, ms, me),
        path: string_of(line, me + 1, pe),
        secret: string_of(line, pe + 1, len),
    };
    proof {
        lemma_run_end(line@, 0, Class::Name);
        lemma_run_end(line@, ms as int, Class::Mount);
        lemma_run_end(line@, me + 1, Class::Path);
    }
    Ok(spec)
}

/// `line` without a carriage return at its end.
pub open spec fn strip_cr(line: Seq<char>) -> Seq<char> {
    if line.len() > 0 && line.last() == '\r' {
        line.drop_last()
    } else {
        line
    }
}

/// The lines of `s` that start at or after position `from`. A line ends at a
/// line feed, which is no part of it, nor is a carriage return directly before
/// the line feed. What follows the last line feed is a line if it is not
/// empty.
pub open spec fn lines_from(s: Seq<char>, from: int) -> Seq<Seq<char>>
    decreases s.len() - from,
{
    if from < 0 || from >= s.len() {
        Seq::empty()
    } else {
        let end = run_end(s, from, Class::Line);
        proof {
            lemma_run_end(s, from, Class::Line);
        }
        if end < s.len() {
            seq![strip_cr(s.subrange(from, end))] + lines_from(s, end + 1)
        } else {
            seq![s.subrange(from, end)]
        }
    }
}

/// The lines of `s`.
pub open spec fn lines_of(s: Seq<char>) -> Seq<Seq<char>> {
    lines_from(s, 0)
}

/// The values of the vectors in `lines`.
pub open spec fn line_views(lines: Seq<Vec<char>>) -> Seq<Seq<char>> {
    Seq::new(lines.len(), |i: int| lines[i]@)
}

/// The characters of `v` from `from` up to, not including, `to`.
fn copy_range(v: &Vec<char>, from: usize, to: usize) -> (r: Vec<char>)
    requires
        from <= to <= v.len(),
    ensures
        r@ == v@.subrange(from as int, to as int),
{
    let mut r: Vec<char> = Vec::new();
    let mut i: usize = from;
    while i < to
        invariant
            from <= i <= to <= v.len(),
            r@ == v@.subrange(from as int, i as int),
        decreases to - i,
    {
        r.push(v[i]);
        i += 1;
    }
    r
}

/// Splits `contents` into its lines.
pub fn split_lines(contents: &str) -> (lines: Vec<Vec<char>>)
    ensures
        line_views(lines@) == lines_of(contents@),
{
    let chars = chars_of(contents);
    let mut lines: Vec<Vec<char>> = Vec::new();
    let mut pos: usize = 0;
    while pos < chars.len()
        invariant
            pos <= chars.len(),
            chars@ == contents@,
            lines_of(contents@) == line_views(lines@) + lines_from(chars@, pos as int),
        decreases chars.len() - pos,
    {
        let end = scan(&chars, pos, Class::Line);
        let ghost before = line_views(lines@);
        if end < chars.len() {
            let stop: usize = if end > pos && chars[end - 1] == '\r' { end - 1 } else { end };
            let line = copy_range(&chars, pos, stop);
            proof {
                assert(line@ == strip_cr(chars@.subrange(pos as int, end as int)));
            }
            lines.push(line);
            proof {
                assert(line_views(lines@) == before + seq![line@]);
            }
            pos = end + 1;
        } else {
            let line = copy_range(&chars, pos, end);
            lines.push(line);
            proof {
                assert(line_views(lines@) == before + seq![line@]);
                assert(lines_from(chars@, end as int) == Seq::<Seq<char>>::empty());
            }
            pos = end;
        }
    }
    lines
}

/// Whether a line holds nothing but white space.
pub open spec fn is_blank(line: Seq<char>) -> bool {
    forall|i: int| 0 <= i < line.len() ==> is_space(#[trigger] line[i])
}

/// Decides [`is_blank`].
pub fn blank(line: &Vec<char>) -> (b: bool)
    ensures
        b == is_blank(line@),
{
    let mut i: usize = 0;
    while i < line.len()
        invariant
            i <= line.len(),
            forall|j: int| 0 <= j < i ==> is_space(#[trigger] line@[j]),
        decreases line.len() - i,
    {
        if !space(line[i]) {
            return false;
        }
        i += 1;
    }
    true
}

/// What the first `n` of `lines` declare: the declarations of the lines that
/// are not blank, in order, or the first line among them that declares
/// nothing, with its number counted from one.
pub open spec fn parse_lines(lines: Seq<Seq<char>>, n: int) -> Result<Seq<SecretSpecView>, ErrorView>
    decreases n,
{
    if n <= 0 {
        Ok(Seq::empty())
    } else {
        match parse_lines(lines, n - 1) {
            Err(e) => Err(e),
            Ok(found) => {
                let line = lines[n - 1];
                if is_blank(line) {
                    Ok(found)
                } else {
                    match line_outcome(line) {
                        Ok(spec) => Ok(found.push(spec)),
                        Err(reason) => Err(
                            ErrorView::Parse { err: reason.text(), lc: n as nat, line },
                        ),
                    }
                }
            },
        }
    }
}

/// Once a line has failed, later lines change nothing.
pub proof fn lemma_parse_lines_error_stays(lines: Seq<Seq<char>>, k: int, n: int)
    requires
        k <= n,
        parse_lines(lines, k) is Err,
    ensures
        parse_lines(lines, n) == parse_lines(lines, k),
    decreases n - k,
{
    if k < n {
        lemma_parse_lines_error_stays(lines, k, n - 1);
    }
}

/// What a declaration file declares.
pub open spec fn parse_outcome(contents: Seq<char>) -> Result<Seq<SecretSpecView>, ErrorView> {
    parse_lines(lines_of(contents), lines_of(contents).len() as int)
}

/// The values of the declarations in `specs`.
pub open spec fn spec_views(specs: Seq<SecretSpec>) -> Seq<SecretSpecView> {
    Seq::new(specs.len(), |i: int| specs[i]@)
}

/// Parses a declaration file. Blank lines are skipped; the first line that is
/// no declaration fails the whole file.
pub fn parse(contents: &str) -> (r: Result<Vec<SecretSpec>, Error>)
    ensures
        match (r, parse_outcome(contents@)) {
            (Ok(specs), Ok(views)) => {
                &&& spec_views(specs@) == views
                &&& forall|i: int| 0 <= i < specs.len() ==> (#[trigger] specs[i])@.wf()
            },
            (Err(e), Err(x)) => e@ == x,
            _ => false,
        },
{
    let lines = split_lines(contents);
    let mut secrets: Vec<SecretSpec> = Vec::new();
    let mut lc: usize = 0;
    proof {
        assert(spec_views(secrets@) == Seq::<SecretSpecView>::empty());
        assert(line_views(lines@).len() == lines.len());
    }
    while lc < lines.len()
        invariant
            lc <= lines.len(),
            line_views(lines@) == lines_of(contents@),
            parse_lines(lines_of(contents@), lc as int) == Ok::<Seq<SecretSpecView>, ErrorView>(
                spec_views(secrets@),
            ),
            forall|i: int| 0 <= i < secrets.len() ==> (#[trigger] secrets[i])@.wf(),
        decreases lines.len() - lc,
    {
        let line = &lines[lc];
        assert(line@ == lines_of(contents@)[lc as int]) by {
            assert(line_views(lines@)[lc as int] == lines@[lc as int]@);
        }
        if !blank(line) {
            match parse_line(line) {
                Ok(spec) => {
                    let ghost before = spec_views(secrets@);
                    secrets.push(spec);
                    proof {
                        assert(spec_views(secrets@) == before.push(spec@));
                    }
                },
                Err(reason) => {
                    let text = string_of(line, 0, line.len());
                    proof {
                        assert(line@.subrange(0, line@.len() as int) == line@);
                        assert(line_views(lines@).len() == lines.len());
                        lemma_parse_lines_error_stays(
                            lines_of(contents@),
                            lc + 1,
                            lines.len() as int,
                        );
                    }
                    return Err(Error::parse(reason.as_str(), lc, text.as_str()));
                },
            }
        }
        lc += 1;
    }
    proof {
        assert(line_views(lines@).len() == lines.len());
    }
    Ok(secrets)
}

/// The line that declares `spec`: its name and `=` if it has a name, then
/// mount, `/`, path, `#` and key.
pub open spec fn line_of(spec: SecretSpecView) -> Seq<char> {
    let rest = spec.mount + seq!['/'] + spec.path + seq!['#'] + spec.secret;
    match spec.name {
        Some(n) => n + seq!['='] + rest,
        None => rest,
    }
}

/// Every well-formed declaration is what its line declares: the grammar
/// takes the line apart into the parts it was made of.
pub proof fn law_line_declares_its_parts(spec: SecretSpecView)
    requires
        spec.wf(),
    ensures
        line_outcome(line_of(spec)) == Ok::<SecretSpecView, Reason>(spec),
{
    let line = line_of(spec);
    let m = spec.mount.len() as int;
    let p = spec.path.len() as int;
    let ms: int = match spec.name {
        Some(n) => (n.len() + 1) as int,
        None => 0,
    };
    assert forall|i: int| ms <= i < ms + m implies Class::Mount.holds(#[trigger] line[i]) by {
        assert(line[i] == spec.mount[i - ms]);
    }
    assert(line[ms + m] == '/');
    assert forall|i: int| ms + m + 1 <= i < ms + m + 1 + p implies Class::Path.holds(
        #[trigger] line[i],
    ) by {
        assert(line[i] == spec.path[i - ms - m - 1]);
    }
    assert(line[ms + m + 1 + p] == '#');
    match spec.name {
        Some(n) => {
            assert forall|i: int| 0 <= i < n.len() implies Class::Name.holds(#[trigger] line[i]) by {
                assert(line[i] == n[i]);
            }
            assert(line[n.len() as int] == '=');
            lemma_run_end_unique(line, 0, Class::Name, n.len() as int);
            assert(line[0] == n[0]);
            assert(line.subrange(0, n.len() as int) == n);
        },
        None => {
            lemma_run_end(line, 0, Class::Name);
            let stop = run_end(line, 0, Class::Name);
            if stop > m {
                assert(Class::Name.holds(line[m]));
            }
            if stop < m {
                assert(Class::Mount.holds(line[stop]));
            }
        },
    }
    lemma_run_end_unique(line, ms, Class::Mount, ms + m);
    lemma_run_end_unique(line, ms + m + 1, Class::Path, ms + m + 1 + p);
    assert(line.subrange(ms, ms + m) == spec.mount);
    assert(line.subrange(ms + m + 1, ms + m + 1 + p) == spec.path);
    assert(line.subrange(ms + m + 2 + p, line.len() as int) == spec.secret);
}

/// What a line declares is well formed.
pub proof fn law_declarations_are_well_formed(line: Seq<char>)
    ensures
        line_outcome(line) is Ok ==> line_outcome(line)->Ok_0.wf(),
{
    lemma_run_end(line, 0, Class::Name);
    if 0 <= mount_start(line) <= line.len() {
        lemma_run_end(line, mount_start(line), Class::Mount);
        if mount_end(line) < line.len() {
            lemma_run_end(line, mount_end(line) + 1, Class::Path);
        }
    }
}

/// A line that is part of white space is blank.
proof fn lemma_lines_of_white_space_are_blank(s: Seq<char>, from: int)
    requires
        is_blank(s),
        0 <= from,
    ensures
        forall|i: int|
            0 <= i < lines_from(s, from).len() ==> is_blank(#[trigger] lines_from(s, from)[i]),
    decreases s.len() - from,
{
    if from < s.len() {
        let end = run_end(s, from, Class::Line);
        lemma_run_end(s, from, Class::Line);
        let whole = s.subrange(from, end);
        assert forall|i: int| 0 <= i < whole.len() implies is_space(#[trigger] whole[i]) by {
            assert(whole[i] == s[from + i]);
        }
        if end < s.len() {
            lemma_lines_of_white_space_are_blank(s, end + 1);
            let first = strip_cr(whole);
            assert forall|i: int| 0 <= i < first.len() implies is_space(#[trigger] first[i]) by {
                assert(first[i] == whole[i]);
            }
            let rest = lines_from(s, end + 1);
            assert forall|i: int| 0 <= i < lines_from(s, from).len() implies is_blank(
                #[trigger] lines_from(s, from)[i],
            ) by {
                if i > 0 {
                    assert(lines_from(s, from)[i] == rest[i - 1]);
                }
            }
        }
    }
}

/// Blank lines declare nothing.
proof fn lemma_blank_lines_declare_nothing(lines: Seq<Seq<char>>, n: int)
    requires
        n <= lines.len(),
        forall|i: int| 0 <= i < lines.len() ==> is_blank(#[trigger] lines[i]),
    ensures
        parse_lines(lines, n) == Ok::<Seq<SecretSpecView>, ErrorView>(Seq::empty()),
    decreases n,
{
    if n > 0 {
        lemma_blank_lines_declare_nothing(lines, n - 1);
    }
}

/// A file of nothing but white space, the empty file among them, declares no
/// secret and is no error.
pub proof fn law_white_space_declares_nothing(contents: Seq<char>)
    requires
        is_blank(contents),
    ensures
        parse_outcome(contents) == Ok::<Seq<SecretSpecView>, ErrorView>(Seq::empty()),
{
    lemma_lines_of_white_space_are_blank(contents, 0);
    lemma_blank_lines_declare_nothing(lines_of(contents), lines_of(contents).len() as int);
}

/// A line without a line feed is the one line of a file that holds it and
/// nothing else.
proof fn lemma_one_line(line: Seq<char>)
    requires
        line.len() > 0,
        forall|i: int| 0 <= i < line.len() ==> #[trigger] line[i] != '\n',
    ensures
        lines_of(line) == seq![line],
{
    assert forall|i: int| 0 <= i < line.len() implies Class::Line.holds(#[trigger] line[i]) by {}
    lemma_run_end_unique(line, 0, Class::Line, line.len() as int);
    assert(line.subrange(0, line.len() as int) == line);
}

/// A file that holds the line of one well-formed declaration, whose key has
/// no line feed in it, declares that declaration and nothing else.
pub proof fn law_file_of_one_declaration(spec: SecretSpecView)
    requires
        spec.wf(),
        forall|i: int| 0 <= i < spec.secret.len() ==> #[trigger] spec.secret[i] != '\n',
    ensures
        parse_outcome(line_of(spec)) == Ok::<Seq<SecretSpecView>, ErrorView>(seq![spec]),
{
    let line = line_of(spec);
    lemma_line_holds_no_line_feed(spec);
    lemma_one_line(line);
    law_line_declares_its_parts(spec);
    assert(parse_lines(lines_of(line), 0) == Ok::<Seq<SecretSpecView>, ErrorView>(Seq::empty()));
    assert(Seq::<SecretSpecView>::empty().push(spec) == seq![spec]);
}

/// The lines of what follows a prefix, from a position behind the prefix on,
/// are those of the rest.
proof fn lemma_lines_after_prefix(a: Seq<char>, b: Seq<char>, from: int)
    requires
        0 <= from <= b.len(),
    ensures
        lines_from(a + b, a.len() + from) == lines_from(b, from),
    decreases b.len() - from,
{
    if from < b.len() {
        let end = run_end(b, from, Class::Line);
        lemma_run_end(b, from, Class::Line);
        lemma_run_end_after_prefix(a, b, from, Class::Line);
        assert((a + b).subrange(a.len() + from, a.len() + end) == b.subrange(from, end));
        if end < b.len() {
            lemma_lines_after_prefix(a, b, end + 1);
        }
    }
}

/// Behind a text that is empty or ends with a line feed, more text adds its
/// lines and changes none.
proof fn lemma_lines_of_closed_prefix(a: Seq<char>, b: Seq<char>, from: int)
    requires
        0 <= from <= a.len(),
        a.len() > 0 ==> a.last() == '\n',
    ensures
        lines_from(a + b, from) == lines_from(a, from) + lines_of(b),
    decreases a.len() - from,
{
    if from < a.len() {
        let end = run_end(a, from, Class::Line);
        lemma_run_end(a, from, Class::Line);
        if end == a.len() {
            assert(Class::Line.holds(a[a.len() - 1]));
        }
        lemma_run_end_in_prefix(a, b, from, Class::Line);
        assert((a + b).subrange(from, end) == a.subrange(from, end));
        lemma_lines_of_closed_prefix(a, b, end + 1);
        assert(lines_from(a + b, from) == seq![strip_cr(a.subrange(from, end))] + lines_from(
            a + b,
            end + 1,
        ));
        assert(lines_from(a, from) == seq![strip_cr(a.subrange(from, end))] + lines_from(
            a,
            end + 1,
        ));
    } else {
        lemma_lines_after_prefix(a, b, 0);
        assert(lines_from(a, from) == Seq::<Seq<char>>::empty());
        assert(Seq::<Seq<char>>::empty() + lines_of(b) == lines_of(b));
    }
}

/// A line followed by a line feed is one line, if it holds no line feed and
/// does not end with a carriage return.
proof fn lemma_one_closed_line(line: Seq<char>)
    requires
        forall|i: int| 0 <= i < line.len() ==> #[trigger] line[i] != '\n',
        line.len() > 0 ==> line.last() != '\r',
    ensures
        lines_of(line + seq!['\n']) == seq![line],
{
    let text = line + seq!['\n'];
    assert forall|i: int| 0 <= i < line.len() implies Class::Line.holds(#[trigger] text[i]) by {
        assert(text[i] == line[i]);
    }
    assert(text[line.len() as int] == '\n');
    lemma_run_end_unique(text, 0, Class::Line, line.len() as int);
    assert(text.subrange(0, line.len() as int) == line);
    assert(lines_from(text, (line.len() + 1) as int) == Seq::<Seq<char>>::empty());
}

/// The file that declares `specs`: the line of each, in order, each followed
/// by a line feed.
pub open spec fn file_of(specs: Seq<SecretSpecView>) -> Seq<char>
    decreases specs.len(),
{
    if specs.len() == 0 {
        Seq::empty()
    } else {
        file_of(specs.drop_last()) + (line_of(specs.last()) + seq!['\n'])
    }
}

/// Whether a declaration can stand on a line of a file with others: it is
/// well formed, and its key neither holds a line feed nor ends with a carriage
/// return.
pub open spec fn fits_a_line(spec: SecretSpecView) -> bool {
    &&& spec.wf()
    &&& forall|i: int| 0 <= i < spec.secret.len() ==> #[trigger] spec.secret[i] != '\n'
    &&& spec.secret.last() != '\r'
}

/// The lines of the file that declares `specs` are the lines of the
/// declarations, and the file is empty or ends with a line feed.
proof fn lemma_lines_of_file(specs: Seq<SecretSpecView>)
    requires
        forall|i: int| 0 <= i < specs.len() ==> fits_a_line(#[trigger] specs[i]),
    ensures
        lines_of(file_of(specs)) == Seq::new(specs.len(), |i: int| line_of(specs[i])),
        file_of(specs).len() > 0 ==> file_of(specs).last() == '\n',
    decreases specs.len(),
{
    let lines = Seq::new(specs.len(), |i: int| line_of(specs[i]));
    if specs.len() == 0 {
        assert(lines_of(file_of(specs)) == lines);
    } else {
        let before = specs.drop_last();
        let spec = specs.last();
        let line = line_of(spec);
        assert forall|i: int| 0 <= i < before.len() implies fits_a_line(#[trigger] before[i]) by {
            assert(before[i] == specs[i]);
        }
        lemma_lines_of_file(before);
        lemma_line_holds_no_line_feed(spec);
        lemma_one_closed_line(line);
        lemma_lines_of_closed_prefix(file_of(before), line + seq!['\n'], 0);
        assert(lines_of(file_of(specs)) == lines_of(file_of(before)) + seq![line]);
        assert(lines_of(file_of(before)) + seq![line] == lines);
    }
}

/// The line of a well-formed declaration whose key holds no line feed holds
/// none, is not blank and ends as the key ends.
proof fn lemma_line_holds_no_line_feed(spec: SecretSpecView)
    requires
        spec.wf(),
        forall|i: int| 0 <= i < spec.secret.len() ==> #[trigger] spec.secret[i] != '\n',
    ensures
        forall|i: int| 0 <= i < line_of(spec).len() ==> #[trigger] line_of(spec)[i] != '\n',
        line_of(spec).len() > 0,
        line_of(spec).last() == spec.secret.last(),
        !is_blank(line_of(spec)),
{
    let line = line_of(spec);
    let m = spec.mount.len() as int;
    let p = spec.path.len() as int;
    let ms: int = match spec.name {
        Some(n) => (n.len() + 1) as int,
        None => 0,
    };
    assert forall|i: int| 0 <= i < line.len() implies #[trigger] line[i] != '\n' by {
        if i < ms - 1 {
            assert(line[i] == spec.name->0[i]);
            assert(Class::Name.holds(spec.name->0[i]));
        } else if i < ms {
        } else if i < ms + m {
            assert(line[i] == spec.mount[i - ms]);
            assert(Class::Mount.holds(spec.mount[i - ms]));
        } else if i == ms + m {
        } else if i < ms + m + 1 + p {
            assert(line[i] == spec.path[i - ms - m - 1]);
            assert(Class::Path.holds(spec.path[i - ms - m - 1]));
        } else if i == ms + m + 1 + p {
        } else {
            assert(line[i] == spec.secret[i - ms - m - p - 2]);
        }
    }
    assert(line.last() == spec.secret.last());
    assert(line[ms + m] == '/');
    assert(!is_space(line[ms + m]));
}

/// What the lines of declarations declare, up to the first `n` of them.
proof fn lemma_parse_lines_of_declarations(specs: Seq<SecretSpecView>, n: int)
    requires
        0 <= n <= specs.len(),
        forall|i: int| 0 <= i < specs.len() ==> fits_a_line(#[trigger] specs[i]),
    ensures
        parse_lines(Seq::new(specs.len(), |i: int| line_of(specs[i])), n) == Ok::<
            Seq<SecretSpecView>,
            ErrorView,
        >(specs.subrange(0, n)),
    decreases n,
{
    let lines = Seq::new(specs.len(), |i: int| line_of(specs[i]));
    if n > 0 {
        lemma_parse_lines_of_declarations(specs, n - 1);
        lemma_line_holds_no_line_feed(specs[n - 1]);
        law_line_declares_its_parts(specs[n - 1]);
        assert(lines[n - 1] == line_of(specs[n - 1]));
        assert(specs.subrange(0, n - 1).push(specs[n - 1]) == specs.subrange(0, n));
    } else {
        assert(specs.subrange(0, 0) == Seq::<SecretSpecView>::empty());
    }
}

/// A file made of the lines of declarations declares exactly those
/// declarations, in the order of the lines.
pub proof fn law_file_declares_its_lines(specs: Seq<SecretSpecView>)
    requires
        forall|i: int| 0 <= i < specs.len() ==> fits_a_line(#[trigger] specs[i]),
    ensures
        parse_outcome(file_of(specs)) == Ok::<Seq<SecretSpecView>, ErrorView>(specs),
{
    lemma_lines_of_file(specs);
    lemma_parse_lines_of_declarations(specs, specs.len() as int);
    assert(specs.subrange(0, specs.len() as int) == specs);
}

} // verus!
