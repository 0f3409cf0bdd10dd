//! Characters and strings as sequences.

use vstd::prelude::*;

verus! {

/// `String::push` appends one character to the end of the string.
pub assume_specification[ String::push ](s: &mut String, c: char)
    ensures
        final(s)@ == old(s)@.push(c),
;

/// The characters of `s`, in order.
pub fn chars_of(s: &str) -> (v: Vec<char>)
    ensures
        v@ == s@,
{
    let mut v: Vec<char> = Vec::new();
    for c in it: s.chars()
        invariant
            it.seq() == s@,
            v@ == it.seq().take(it.index()),
    {
        v.push(c);
    }
    v
}

/// The characters of `v` from `from` up to, not including, `to`, as a string.
pub fn string_of(v: &Vec<char>, from: usize, to: usize) -> (s: String)
    requires
        from <= to <= v.len(),
    ensures
        s@ == v@.subrange(from as int, to as int),
{
    let mut s = String::new();
    let mut i: usize = from;
    while i < to
        invariant
            from <= i <= to <= v.len(),
            s@ == v@.subrange(from as int, i as int),
        decreases to - i,
    {
        s.push(v[i]);
        i += 1;
    }
    s
}

/// Whether `c` is an ASCII digit.
pub open spec fn is_digit(c: char) -> bool {
    '0' <= c <= '9'
}

/// Whether `c` is an ASCII letter or digit or an underscore.
pub open spec fn is_name_char(c: char) -> bool {
    ('a' <= c <= 'z') || ('A' <= c <= 'Z') || is_digit(c) || c == '_'
}

/// Whether `c` may stand in the name of a mount.
pub open spec fn is_mount_char(c: char) -> bool {
    is_name_char(c) || c == '-' || c == '@'
}

/// Whether `c` may stand in a path below a mount.
pub open spec fn is_path_char(c: char) -> bool {
    is_mount_char(c) || c == '/'
}

/// Whether `c` has the Unicode property `White_Space`.
pub open spec fn is_space(c: char) -> bool {
    ('\u{9}' <= c <= '\u{d}') || c == ' ' || c == '\u{85}' || c == '\u{a0}' || c == '\u{1680}'
        || ('\u{2000}' <= c <= '\u{200a}') || c == '\u{2028}' || c == '\u{2029}'
        || c == '\u{202f}' || c == '\u{205f}' || c == '\u{3000}'
}

/// Decides [`is_digit`].
pub fn digit(c: char) -> (b: bool)
    ensures
        b == is_digit(c),
{
    '0' <= c && c <= '9'
}

/// Decides [`is_name_char`].
pub fn name_char(c: char) -> (b: bool)
    ensures
        b == is_name_char(c),
{
    ('a' <= c && c <= 'z') || ('A' <= c && c <= 'Z') || digit(c) || c == '_'
}

/// Decides [`is_mount_char`].
pub fn mount_char(c: char) -> (b: bool)
    ensures
        b == is_mount_char(c),
{
    name_char(c) || c == '-' || c == '@'
}

/// Decides [`is_path_char`].
pub fn path_char(c: char) -> (b: bool)
    ensures
        b == is_path_char(c),
{
    mount_char(c) || c == '/'
}

/// Decides [`is_space`].
pub fn space(c: char) -> (b: bool)
    ensures
        b == is_space(c),
{
    ('\u{9}' <= c && c <= '\u{d}') || c == ' ' || c == '\u{85}' || c == '\u{a0}' || c == '\u{1680}'
        || ('\u{2000}' <= c && c <= '\u{200a}') || c == '\u{2028}' || c == '\u{2029}'
        || c == '\u{202f}' || c == '\u{205f}' || c == '\u{3000}'
}

/// Whether `c` is alphanumeric in the sense of `char::is_alphanumeric`: a
/// letter or a number of any script.
pub uninterp spec fn is_letter_or_number(c: char) -> bool;

/// `char::is_alphanumeric` depends on the character alone; its result is
/// named, not described.
pub assume_specification[ char::is_alphanumeric ](c: char) -> (b: bool)
    ensures
        b == is_letter_or_number(c),
;

/// `c` with the letters `a` to `z` replaced by `A` to `Z`.
pub open spec fn ascii_uppercase(c: char) -> char {
    if 'a' <= c <= 'z' {
        ((c as u8) - 32) as u8 as char
    } else {
        c
    }
}

/// `char::to_ascii_uppercase` maps the letters `a` to `z` to `A` to `Z` and
/// leaves every other character unchanged.
pub assume_specification[ char::to_ascii_uppercase ](c: &char) -> (u: char)
    ensures
        u == ascii_uppercase(*c),
;

/// A set of characters that a scan runs over.
#[derive(Debug, Clone, Copy, PartialEq, Eq, Structural)]
pub enum Class {
    /// Letters, digits and the underscore.
    Name,
    /// The characters of a mount's name.
    Mount,
    /// The characters of a path.
    Path,
    /// Every character but the line feed.
    Line,
}

impl Class {
    /// Whether `c` belongs to the class.
    pub open spec fn holds(self, c: char) -> bool {
        match self {
            Class::Name => is_name_char(c),
            Class::Mount => is_mount_char(c),
            Class::Path => is_path_char(c),
            Class::Line => c != '\n',
        }
    }

    /// Decides [`Class::holds`].
    pub fn test(self, c: char) -> (b: bool)
        ensures
            b == self.holds(c),
    {
        match self {
            Class::Name => name_char(c),
            Class::Mount => mount_char(c),
            Class::Path => path_char(c),
            Class::Line => c != '\n',
        }
    }
}

/// Where the longest run of characters of `class` that starts at `from` ends:
/// the first position at or after `from` that holds no character of the class.
pub open spec fn run_end(s: Seq<char>, from: int, class: Class) -> int
    decreases s.len() - from,
{
    if 0 <= from < s.len() && class.holds(s[from]) {
        run_end(s, from + 1, class)
    } else {
        from
    }
}

/// A run ends inside the sequence, holds only characters of its class, and
/// stops at a character outside the class or at the end.
pub proof fn lemma_run_end(s: Seq<char>, from: int, class: Class)
    requires
        0 <= from <= s.len(),
    ensures
        from <= run_end(s, from, class) <= s.len(),
        forall|i: int| from <= i < run_end(s, from, class) ==> class.holds(#[trigger] s[i]),
        run_end(s, from, class) < s.len() ==> !class.holds(s[run_end(s, from, class)]),
    decreases s.len() - from,
{
    if from < s.len() && class.holds(s[from]) {
        lemma_run_end(s, from + 1, class);
    }
}

/// A position that follows only characters of the class and holds none is
/// where the run ends.
pub proof fn lemma_run_end_unique(s: Seq<char>, from: int, class: Class, end: int)
    requires
        0 <= from <= end <= s.len(),
        forall|i: int| from <= i < end ==> class.holds(#[trigger] s[i]),
        end < s.len() ==> !class.holds(s[end]),
    ensures
        run_end(s, from, class) == end,
    decreases end - from,
{
    if from < end {
        lemma_run_end_unique(s, from + 1, class, end);
    }
}

/// Finds the end of the run of `class` that starts at `from`.
pub fn scan(s: &Vec<char>, from: usize, class: Class) -> (end: usize)
    requires
        from <= s.len(),
    ensures
        end == run_end(s@, from as int, class),
        from <= end <= s.len(),
{
    let mut i: usize = from;
    while i < s.len() && class.test(s[i])
        invariant
            from <= i <= s.len(),
            run_end(s@, from as int, class) == run_end(s@, i as int, class),
        decreases s.len() - i,
    {
        i += 1;
    }
    i
}

/// The character for a digit's value.
pub open spec fn digit_char(d: int) -> char {
    (48 + d) as u8 as char
}

/// `n` in decimal, most significant digit first, without leading zeros.
pub open spec fn decimal(n: nat) -> Seq<char>
    decreases n,
{
    if n < 10 {
        seq![digit_char(n as int)]
    } else {
        decimal(n / 10).push(digit_char((n % 10) as int))
    }
}

/// Writes `n` in decimal.
pub fn decimal_string(n: usize) -> (s: String)
    ensures
        s@ == decimal(n as nat),
{
    let mut digits: Vec<char> = Vec::new();
    digits.push((48u8 + (n % 10) as u8) as char);
    let mut m: usize = n / 10;
    while m > 0
        invariant
            digits.len() > 0,
            decimal(n as nat) == (if m > 0 {
                decimal(m as nat)
            } else {
                Seq::<char>::empty()
            }) + digits@.reverse(),
        decreases m,
    {
        let ghost before = digits@;
        digits.push((48u8 + (m % 10) as u8) as char);
        proof {
            assert(digits@.reverse() == seq![digit_char((m % 10) as int)] + before.reverse());
        }
        m = m / 10;
    }
    let mut s = String::new();
    let mut i: usize = digits.len();
    while i > 0
        invariant
            i <= digits.len(),
            s@ == digits@.reverse().subrange(0, digits.len() - i),
        decreases i,
    {
        i -= 1;
        s.push(digits[i]);
    }
    proof {
        assert(digits@.reverse().subrange(0, digits.len() as int) == digits@.reverse());
    }
    s
}

/// The values of the strings in `strings`.
pub open spec fn string_views(strings: Seq<String>) -> Seq<Seq<char>> {
    Seq::new(strings.len(), |i: int| strings[i]@)
}

/// The values of the pairs of strings in `pairs`.
pub open spec fn pair_views(pairs: Seq<(String, String)>) -> Seq<(Seq<char>, Seq<char>)> {
    Seq::new(pairs.len(), |i: int| (pairs[i].0@, pairs[i].1@))
}

/// A run in what follows a prefix is the run in the rest, moved behind the
/// prefix.
pub proof fn lemma_run_end_after_prefix(a: Seq<char>, b: Seq<char>, from: int, class: Class)
    requires
        0 <= from <= b.len(),
    ensures
        run_end(a + b, a.len() + from, class) == a.len() + run_end(b, from, class),
    decreases b.len() - from,
{
    if from < b.len() {
        assert((a + b)[a.len() + from] == b[from]);
        if class.holds(b[from]) {
            lemma_run_end_after_prefix(a, b, from + 1, class);
        }
    }
}

/// A run that ends inside a sequence ends at the same place whatever follows
/// the sequence.
pub proof fn lemma_run_end_in_prefix(a: Seq<char>, b: Seq<char>, from: int, class: Class)
    requires
        0 <= from <= a.len(),
        run_end(a, from, class) < a.len(),
    ensures
        run_end(a + b, from, class) == run_end(a, from, class),
    decreases a.len() - from,
{
    assert((a + b)[from] == a[from]);
    if class.holds(a[from]) {
        lemma_run_end_in_prefix(a, b, from + 1, class);
    }
}

} // verus!
