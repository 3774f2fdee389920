//! Character-level helpers shared by the parsers.

use vstd::prelude::*;

verus! {

/// The characters of `s`, in order.
pub fn chars_of(s: &str) -> (v: Vec<char>)
    ensures
        v@ == s@,
{
    let mut v: Vec<char> = Vec::new();
    for c in it: s.chars()
        invariant
            v@ == it.seq().take(it.index() as int),
    {
        v.push(c);
    }
    v
}

/// Relies on `String::push`: the character is appended at the end.
#[verifier::external_body]
pub(crate) fn push_char(s: &mut String, c: char)
    ensures
        final(s)@ == old(s)@.push(c),
{
    s.push(c);
}

/// Appends the characters `v[from..to]` to `out`.
pub(crate) fn push_range(out: &mut String, v: &[char], from: usize, to: usize)
    requires
        from <= to <= v@.len(),
    ensures
        final(out)@ == old(out)@ + v@.subrange(from as int, to as int),
{
    let mut i = from;
    while i < to
        invariant
            from <= i <= to <= v@.len(),
            out@ == old(out)@ + v@.subrange(from as int, i as int),
        decreases to - i,
    {
        push_char(out, v[i]);
        assert(v@.subrange(from as int, i + 1) == v@.subrange(from as int, i as int).push(v@[i as int]));
        i = i + 1;
    }
}

/// A new string holding the characters `v[from..to]`.
pub(crate) fn string_of(v: &[char], from: usize, to: usize) -> (r: String)
    requires
        from <= to <= v@.len(),
    ensures
        r@ == v@.subrange(from as int, to as int),
{
    let mut r = String::new();
    push_range(&mut r, v, from, to);
    assert(Seq::<char>::empty() + v@.subrange(from as int, to as int) == v@.subrange(from as int, to as int));
    r
}

/// Appends all of `t` to `out`.
pub(crate) fn push_str(out: &mut String, t: &str)
    ensures
        final(out)@ == old(out)@ + t@,
{
    let v = chars_of(t);
    push_range(out, v.as_slice(), 0, v.len());
    assert(v@.subrange(0, v@.len() as int) == v@);
}

/// Whether two texts hold the same characters.
pub fn str_eq(a: &str, b: &str) -> (r: bool)
    ensures
        r == (a@ == b@),
{
    let x = chars_of(a);
    let y = chars_of(b);
    if x.len() != y.len() {
        return false;
    }
    let mut i: usize = 0;
    while i < x.len()
        invariant
            x@ == a@,
            y@ == b@,
            x@.len() == y@.len(),
            i <= x@.len(),
            forall|k: int| 0 <= k < i ==> x@[k] == y@[k],
        decreases x@.len() - i,
    {
        if x[i] != y[i] {
            assert(a@[i as int] != b@[i as int]);
            return false;
        }
        i = i + 1;
    }
    assert(x@ =~= y@);
    true
}

/// Whether the text `lit` stands in `s` at position `i`.
pub(crate) fn matches_at(s: &[char], i: usize, lit: &str) -> (r: bool)
    requires
        i <= s@.len(),
    ensures
        r == (i + lit@.len() <= s@.len() && s@.subrange(i as int, i + lit@.len()) == lit@),
{
    let t = chars_of(lit);
    if t.len() > s.len() - i {
        return false;
    }
    let mut k: usize = 0;
    while k < t.len()
        invariant
            t@ == lit@,
            i + t@.len() <= s@.len(),
            s@.len() == s.len(),
            k <= t@.len(),
            forall|j: int| 0 <= j < k ==> s@[i + j] == t@[j],
        decreases t@.len() - k,
    {
        if s[i + k] != t[k] {
            assert(s@.subrange(i as int, i + lit@.len())[k as int] != lit@[k as int]);
            return false;
        }
        k = k + 1;
    }
    assert(s@.subrange(i as int, i + lit@.len()) =~= lit@);
    true
}

} // verus!

verus! {

/// The kinds of characters that the grammars tell apart.
#[derive(Clone, Copy, Debug, PartialEq, Eq, Structural)]
pub enum CharClass {
    /// Blanks: space, tab, carriage return and line feed.
    Space,
    /// ASCII letters.
    Letter,
    /// The characters of a user or repository name: ASCII letters and digits, `-`, `_` and `.`.
    Ident,
    /// The characters of an attribute key: ASCII letters and digits, `-` and `_`.
    Key,
    /// The characters of a full repository URL: anything but blanks, `#` and `;`.
    Url,
    /// The characters of a branch name: anything but blanks and `;`.
    Branch,
    /// The characters of an unquoted value: anything but blanks, `;` and quotes.
    Bare,
    /// The characters of a word on a configuration line: anything but blanks.
    Word,
    /// Blanks within a line: space, tab and carriage return.
    Blank,
    /// The path separator `/`.
    Slash,
    /// Anything but a space.
    Token,
}

pub open spec fn is_space(c: char) -> bool {
    c == ' ' || c == '\t' || c == '\r' || c == '\n'
}

pub open spec fn is_letter(c: char) -> bool {
    ('a' <= c && c <= 'z') || ('A' <= c && c <= 'Z')
}

pub open spec fn is_alnum(c: char) -> bool {
    is_letter(c) || ('0' <= c && c <= '9')
}

/// Whether `c` belongs to the class `k`.
pub open spec fn in_class(k: CharClass, c: char) -> bool {
    match k {
        CharClass::Space => is_space(c),
        CharClass::Letter => is_letter(c),
        CharClass::Ident => is_alnum(c) || c == '-' || c == '_' || c == '.',
        CharClass::Key => is_alnum(c) || c == '-' || c == '_',
        CharClass::Url => !is_space(c) && c != '#' && c != ';',
        CharClass::Branch => !is_space(c) && c != ';',
        CharClass::Bare => !is_space(c) && c != ';' && c != '"' && c != '\'',
        CharClass::Word => !is_space(c),
        CharClass::Blank => c == ' ' || c == '\t' || c == '\r',
        CharClass::Slash => c == '/',
        CharClass::Token => c != ' ',
    }
}

/// The end of the run of characters of class `k` that starts at `i`.
pub open spec fn run_end(s: Seq<char>, i: int, k: CharClass) -> int
    decreases s.len() - i,
{
    if 0 <= i < s.len() && in_class(k, s[i]) {
        run_end(s, i + 1, k)
    } else {
        i
    }
}

/// The first position at or after `i` that holds `c`, if any.
pub open spec fn find_char(s: Seq<char>, i: int, c: char) -> Option<int>
    decreases s.len() - i,
{
    if i < 0 || i >= s.len() {
        None
    } else if s[i] == c {
        Some(i)
    } else {
        find_char(s, i + 1, c)
    }
}

/// A run ends within the text, after its start, and every character in it belongs to the class.
pub proof fn lemma_run_end(s: Seq<char>, i: int, k: CharClass)
    requires
        0 <= i <= s.len(),
    ensures
        i <= run_end(s, i, k) <= s.len(),
        forall|j: int| i <= j < run_end(s, i, k) ==> in_class(k, #[trigger] s[j]),
        run_end(s, i, k) < s.len() ==> !in_class(k, s[run_end(s, i, k)]),
    decreases s.len() - i,
{
    if i < s.len() && in_class(k, s[i]) {
        lemma_run_end(s, i + 1, k);
    }
}

/// Whether `c` belongs to the class `k`.
pub fn class_has(k: CharClass, c: char) -> (r: bool)
    ensures
        r == in_class(k, c),
{
    let space = c == ' ' || c == '\t' || c == '\r' || c == '\n';
    let letter = ('a' <= c && c <= 'z') || ('A' <= c && c <= 'Z');
    let alnum = letter || ('0' <= c && c <= '9');
    match k {
        CharClass::Space => space,
        CharClass::Letter => letter,
        CharClass::Ident => alnum || c == '-' || c == '_' || c == '.',
        CharClass::Key => alnum || c == '-' || c == '_',
        CharClass::Url => !space && c != '#' && c != ';',
        CharClass::Branch => !space && c != ';',
        CharClass::Bare => !space && c != ';' && c != '"' && c != '\'',
        CharClass::Word => !space,
        CharClass::Blank => c == ' ' || c == '\t' || c == '\r',
        CharClass::Slash => c == '/',
        CharClass::Token => c != ' ',
    }
}

/// The end of the run of characters of class `k` that starts at `i`.
pub fn scan(s: &[char], i: usize, k: CharClass) -> (e: usize)
    requires
        i <= s@.len(),
    ensures
        e == run_end(s@, i as int, k),
        i <= e <= s@.len(),
{
    let mut j = i;
    while j < s.len() && class_has(k, s[j])
        invariant
            i <= j <= s@.len(),
            run_end(s@, i as int, k) == run_end(s@, j as int, k),
        decreases s@.len() - j,
    {
        j = j + 1;
    }
    j
}

/// The first position at or after `i` that holds `c`, if any.
pub fn find(s: &[char], i: usize, c: char) -> (r: Option<usize>)
    requires
        i <= s@.len(),
    ensures
        r == (match find_char(s@, i as int, c) {
            Some(p) => Some(p as usize),
            None => None::<usize>,
        }),
        r matches Some(p) ==> i <= p < s@.len() && s@[p as int] == c,
{
    let mut j = i;
    while j < s.len()
        invariant
            i <= j <= s@.len(),
            find_char(s@, i as int, c) == find_char(s@, j as int, c),
        decreases s@.len() - j,
    {
        if s[j] == c {
            return Some(j);
        }
        j = j + 1;
    }
    None
}

/// The characters `v[from..to]`, in a vector of their own.
pub(crate) fn sub_vec(v: &[char], from: usize, to: usize) -> (r: Vec<char>)
    requires
        from <= to <= v@.len(),
    ensures
        r@ == v@.subrange(from as int, to as int),
{
    let mut r: Vec<char> = Vec::new();
    let mut i = from;
    while i < to
        invariant
            from <= i <= to <= v@.len(),
            r@ == v@.subrange(from as int, i as int),
        decreases to - i,
    {
        r.push(v[i]);
        assert(r@ =~= v@.subrange(from as int, i + 1));
        i = i + 1;
    }
    r
}

/// A position that a search finds lies within the text and holds the character.
pub proof fn lemma_find_char(s: Seq<char>, k: int, c: char)
    ensures
        find_char(s, k, c) matches Some(p) ==> k <= p < s.len() && s[p] == c,
    decreases s.len() - k,
{
    if k < 0 || k >= s.len() {
    } else if s[k] == c {
    } else {
        lemma_find_char(s, k + 1, c);
    }
}

/// Where the line that starts at `i` ends: at the next line feed, or at the end of the text.
pub open spec fn line_end(s: Seq<char>, i: int) -> int {
    match find_char(s, i, '\n') {
        Some(p) => p,
        None => s.len() as int,
    }
}

/// The lines of `s` from position `i` on, each without its line feed.
pub open spec fn lines_from(s: Seq<char>, i: int) -> Seq<Seq<char>>
    decreases s.len() - i,
    via lines_from_decreases
{
    if !(0 <= i <= s.len()) {
        Seq::empty()
    } else {
        let e = line_end(s, i);
        let rest = if e < s.len() {
            lines_from(s, e + 1)
        } else {
            Seq::empty()
        };
        seq![s.subrange(i, e)] + rest
    }
}

#[via_fn]
pub proof fn lines_from_decreases(s: Seq<char>, i: int) {
    lemma_find_char(s, i, '\n');
}

/// Where a search for `c` from `i` finds nothing, no position from `i` on holds `c`.
pub proof fn lemma_find_none_from(s: Seq<char>, i: int, c: char)
    requires
        0 <= i <= s.len(),
        find_char(s, i, c) is None,
    ensures
        forall|j: int| i <= j < s.len() ==> s[j] != c,
    decreases s.len() - i,
{
    if i < s.len() {
        lemma_find_none_from(s, i + 1, c);
    }
}

} // verus!
