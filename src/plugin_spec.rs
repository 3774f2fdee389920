//! Plugin declarations: the `Spec` they describe, and the parser for the
//! declaration grammar:
//!
//! ```text
//! spec      = url [ '#' branch ] ( ';' attribute )*
//! url       = full_url | alias_url | short_url
//! full_url  = letters "://" url_chars
//! alias_url = provider ':' short_url
//! short_url = ident '/' ident
//! attribute = key '=' ( '"' escaped '"' | '\'' raw '\'' | bare )
//! ```
//!
//! Blanks may stand before the URL and around `;`, the key and `=`.

use vstd::prelude::*;

use crate::attribute::{attribute_named, Attribute};
use crate::repo_url::{alias_named, RepoUrl, RepoUrlView, UrlAlias};
use crate::text::{
    chars_of, find, find_char, in_class, lemma_find_char, lemma_find_none_from, lemma_run_end,
    matches_at, push_char, push_str, run_end, scan, string_of, CharClass,
};

verus! {

/// A parsed plugin declaration.
#[derive(Clone, Debug, PartialEq, Eq)]
pub struct Spec {
    name: String,
    url: RepoUrl,
    branch: Option<String>,
    alias: Option<String>,
    parallel: Option<String>,
}

/// What a [`Spec`] holds.
pub struct SpecView {
    pub name: Seq<char>,
    pub url: RepoUrlView,
    pub branch: Option<Seq<char>>,
    pub alias: Option<Seq<char>>,
    pub parallel: Option<Seq<char>>,
}

pub open spec fn opt_view(o: Option<String>) -> Option<Seq<char>> {
    match o {
        Some(s) => Some(s@),
        None => None,
    }
}

impl View for Spec {
    type V = SpecView;

    closed spec fn view(&self) -> SpecView {
        SpecView {
            name: self.name@,
            url: self.url@,
            branch: opt_view(self.branch),
            alias: opt_view(self.alias),
            parallel: opt_view(self.parallel),
        }
    }
}

impl SpecView {
    /// The attributes, keyed by attribute.
    pub open spec fn attributes(self) -> Map<Attribute, Seq<char>> {
        let m = Map::<Attribute, Seq<char>>::empty();
        let m = match self.alias {
            Some(a) => m.insert(Attribute::Alias, a),
            None => m,
        };
        match self.parallel {
            Some(p) => m.insert(Attribute::Parallel, p),
            None => m,
        }
    }

    /// The plugin's local identity: the `alias` attribute where there is one, else the name.
    pub open spec fn effective_name(self) -> Seq<char> {
        match self.alias {
            Some(a) => a,
            None => self.name,
        }
    }
}

/// Why a declaration was refused.
#[derive(Clone, Debug, PartialEq, Eq)]
pub enum SpecError {
    /// The declaration is empty.
    EmptySpec,
    /// The declaration breaks the grammar; this holds the text from where it does.
    SyntaxError(String),
    /// A legacy declaration carries attributes; this holds the declaration.
    LegacyAttributes(String),
}

impl SpecError {
    /// A message for the user.
    pub fn to_string(&self) -> (r: String)
        ensures
            self is EmptySpec ==> r@ == "Plugin spec must not be empty"@,
            self matches SpecError::SyntaxError(t) ==> r@ == "Invalid plugin spec syntax at: "@ + t@,
            self matches SpecError::LegacyAttributes(t) ==> r@
                == "Attributes are not supported in legacy plugin definition using `@tpm_plugins`: "@
                + t@,
    {
        let mut r = String::new();
        match self {
            SpecError::EmptySpec => push_str(&mut r, "Plugin spec must not be empty"),
            SpecError::SyntaxError(t) => {
                push_str(&mut r, "Invalid plugin spec syntax at: ");
                push_str(&mut r, t.as_str());
            },
            SpecError::LegacyAttributes(t) => {
                push_str(
                    &mut r,
                    "Attributes are not supported in legacy plugin definition using `@tpm_plugins`: ",
                );
                push_str(&mut r, t.as_str());
            },
        }
        r
    }
}

// ---------------------------------------------------------------------------
// The grammar, as spec functions over the characters of a declaration.
// A result's `int` is the position after what was read; an `Err(p)` is the
// position where the declaration stops following the grammar.

/// Where the last path segment of `t[..k]` starts.
pub open spec fn segment_start(t: Seq<char>, k: int) -> int
    decreases k,
{
    if k <= 0 {
        0
    } else if t[k - 1] == '/' {
        k
    } else {
        segment_start(t, k - 1)
    }
}

/// The repository name of a full URL: its last path segment, without a `.git` suffix.
pub open spec fn repo_name_of(t: Seq<char>) -> Seq<char> {
    let seg = t.subrange(segment_start(t, t.len() as int), t.len() as int);
    if seg.len() >= 4 && seg.subrange(seg.len() - 4, seg.len() as int) == ".git"@ {
        seg.subrange(0, seg.len() - 4)
    } else {
        seg
    }
}

/// `ident '/' ident` at `j`: the text, the repository name and the end.
pub open spec fn short_url_at(s: Seq<char>, j: int) -> Option<(Seq<char>, Seq<char>, int)> {
    let u = run_end(s, j, CharClass::Ident);
    if u > j && u < s.len() && s[u] == '/' {
        let r = run_end(s, u + 1, CharClass::Ident);
        if r > u + 1 {
            Some((s.subrange(j, r), s.subrange(u + 1, r), r))
        } else {
            None
        }
    } else {
        None
    }
}

/// A full URL at `i`: a scheme of letters, `://`, then URL characters.
pub open spec fn full_url_at(s: Seq<char>, i: int) -> Option<(RepoUrlView, Seq<char>, int)> {
    let a = run_end(s, i, CharClass::Letter);
    if a > i && a + 3 <= s.len() && s.subrange(a, a + 3) == "://"@ {
        let e = run_end(s, a + 3, CharClass::Url);
        let name = repo_name_of(s.subrange(i, e));
        if name.len() > 0 {
            Some((RepoUrlView::Full(s.subrange(i, e)), name, e))
        } else {
            None
        }
    } else {
        None
    }
}

/// A provider prefix, `:`, and a short URL at `i`.
pub open spec fn alias_url_at(s: Seq<char>, i: int) -> Option<(RepoUrlView, Seq<char>, int)> {
    let a = run_end(s, i, CharClass::Letter);
    if a > i && a < s.len() && s[a] == ':' {
        match alias_named(s.subrange(i, a)) {
            Some(al) => match short_url_at(s, a + 1) {
                Some((t, n, e)) => Some((RepoUrlView::Alias(al, t), n, e)),
                None => None,
            },
            None => None,
        }
    } else {
        None
    }
}

/// The repository reference at `i`: the reference, the repository name and the end.
pub open spec fn url_at(s: Seq<char>, i: int) -> Option<(RepoUrlView, Seq<char>, int)> {
    if full_url_at(s, i) is Some {
        full_url_at(s, i)
    } else if alias_url_at(s, i) is Some {
        alias_url_at(s, i)
    } else {
        match short_url_at(s, i) {
            Some((t, n, e)) => Some((RepoUrlView::Short(t), n, e)),
            None => None,
        }
    }
}

/// An optional `'#' branch` at `e`.
pub open spec fn branch_at(s: Seq<char>, e: int) -> Result<(Option<Seq<char>>, int), int> {
    if 0 <= e < s.len() && s[e] == '#' {
        let b = run_end(s, e + 1, CharClass::Branch);
        if b > e + 1 {
            Ok((Some(s.subrange(e + 1, b)), b))
        } else {
            Err(e)
        }
    } else {
        Ok((None, e))
    }
}

/// The closing quote of a double-quoted value whose text starts at `k`; a
/// backslash takes the character after it along.
pub open spec fn closing_quote(s: Seq<char>, k: int) -> Option<int>
    decreases s.len() - k,
{
    if k < 0 || k >= s.len() {
        None
    } else if s[k] == '"' {
        Some(k)
    } else if s[k] == '\\' && k + 1 < s.len() {
        closing_quote(s, k + 2)
    } else {
        closing_quote(s, k + 1)
    }
}

/// The text of a double-quoted value with each `\"` read as `"`.
pub open spec fn unescape(t: Seq<char>) -> Seq<char>
    decreases t.len(),
{
    if t.len() == 0 {
        t
    } else if t.len() >= 2 && t[0] == '\\' && t[1] == '"' {
        seq!['"'] + unescape(t.subrange(2, t.len() as int))
    } else {
        seq![t[0]] + unescape(t.subrange(1, t.len() as int))
    }
}

/// An attribute value at `v`: its text and the end.
pub open spec fn value_at(s: Seq<char>, v: int) -> Option<(Seq<char>, int)> {
    if 0 <= v < s.len() && s[v] == '"' {
        match closing_quote(s, v + 1) {
            Some(c) => Some((unescape(s.subrange(v + 1, c)), c + 1)),
            None => None,
        }
    } else if 0 <= v < s.len() && s[v] == '\'' {
        match find_char(s, v + 1, '\'') {
            Some(c) => Some((s.subrange(v + 1, c), c + 1)),
            None => None,
        }
    } else {
        let b = run_end(s, v, CharClass::Bare);
        if b > v {
            Some((s.subrange(v, b), b))
        } else {
            None
        }
    }
}

/// `key '=' value` at `i`, blanks allowed around each: the key, the value and the end.
pub open spec fn attribute_at(s: Seq<char>, i: int) -> Option<(Seq<char>, Seq<char>, int)> {
    let k0 = run_end(s, i, CharClass::Space);
    let k1 = run_end(s, k0, CharClass::Key);
    let q = run_end(s, k1, CharClass::Space);
    if k1 > k0 && q < s.len() && s[q] == '=' {
        match value_at(s, run_end(s, q + 1, CharClass::Space)) {
            Some((v, e)) => Some((s.subrange(k0, k1), v, e)),
            None => None,
        }
    } else {
        None
    }
}

/// The values of the recognised attributes after an attribute with `key` and `value`;
/// a later attribute replaces an earlier one with the same key, and other keys are dropped.
pub open spec fn with_attribute(
    key: Seq<char>,
    value: Seq<char>,
    alias: Option<Seq<char>>,
    parallel: Option<Seq<char>>,
) -> (Option<Seq<char>>, Option<Seq<char>>) {
    match attribute_named(key) {
        Some(Attribute::Alias) => (Some(value), parallel),
        Some(Attribute::Parallel) => (alias, Some(value)),
        None => (alias, parallel),
    }
}

/// The attributes from `i` to the end of the declaration, each after a `;`.
pub open spec fn attributes_from(
    s: Seq<char>,
    i: int,
    alias: Option<Seq<char>>,
    parallel: Option<Seq<char>>,
) -> Result<(Option<Seq<char>>, Option<Seq<char>>), int>
    decreases s.len() - i,
    via attributes_from_decreases
{
    if !(0 <= i <= s.len()) {
        Err(i)
    } else {
        let j = run_end(s, i, CharClass::Space);
        if j >= s.len() {
            Ok((alias, parallel))
        } else if s[j] != ';' {
            Err(j)
        } else {
            match attribute_at(s, j + 1) {
                None => Err(run_end(s, j + 1, CharClass::Space)),
                Some((k, v, e)) => {
                    let (a, p) = with_attribute(k, v, alias, parallel);
                    attributes_from(s, e, a, p)
                },
            }
        }
    }
}

/// A run of a character class ends within the text.
proof fn lemma_value_end(s: Seq<char>, v: int)
    requires
        0 <= v <= s.len(),
    ensures
        value_at(s, v) matches Some((_, e)) ==> v < e <= s.len(),
{
    lemma_run_end(s, v, CharClass::Bare);
    if 0 <= v < s.len() && s[v] == '"' {
        lemma_closing_quote(s, v + 1);
    } else if 0 <= v < s.len() && s[v] == '\'' {
        lemma_find_char(s, v + 1, '\'');
    }
}

pub(crate) proof fn lemma_closing_quote(s: Seq<char>, k: int)
    ensures
        closing_quote(s, k) matches Some(c) ==> k <= c < s.len() && s[c] == '"',
    decreases s.len() - k,
{
    if k < 0 || k >= s.len() {
    } else if s[k] == '"' {
    } else if s[k] == '\\' && k + 1 < s.len() {
        lemma_closing_quote(s, k + 2);
    } else {
        lemma_closing_quote(s, k + 1);
    }
}

/// An attribute ends after where it starts.
proof fn lemma_attribute_end(s: Seq<char>, i: int)
    requires
        0 <= i <= s.len(),
    ensures
        attribute_at(s, i) matches Some((_, _, e)) ==> i < e <= s.len(),
{
    let k0 = run_end(s, i, CharClass::Space);
    lemma_run_end(s, i, CharClass::Space);
    let k1 = run_end(s, k0, CharClass::Key);
    lemma_run_end(s, k0, CharClass::Key);
    let q = run_end(s, k1, CharClass::Space);
    lemma_run_end(s, k1, CharClass::Space);
    if k1 > k0 && q < s.len() && s[q] == '=' {
        lemma_run_end(s, q + 1, CharClass::Space);
        lemma_value_end(s, run_end(s, q + 1, CharClass::Space));
    }
}

/// A repository reference ends within the text, not before it starts.
proof fn lemma_url_end(s: Seq<char>, i: int)
    requires
        0 <= i <= s.len(),
    ensures
        url_at(s, i) matches Some((_, _, e)) ==> i <= e <= s.len(),
{
    lemma_run_end(s, i, CharClass::Letter);
    lemma_run_end(s, i, CharClass::Ident);
    let a = run_end(s, i, CharClass::Letter);
    if a + 3 <= s.len() {
        lemma_run_end(s, a + 3, CharClass::Url);
    }
    if a < s.len() {
        lemma_run_end(s, a + 1, CharClass::Ident);
        let u = run_end(s, a + 1, CharClass::Ident);
        if u < s.len() {
            lemma_run_end(s, u + 1, CharClass::Ident);
        }
    }
    let u = run_end(s, i, CharClass::Ident);
    if u < s.len() {
        lemma_run_end(s, u + 1, CharClass::Ident);
    }
}

/// Where the attributes stop following the grammar lies within the text.
proof fn lemma_attributes_err(
    s: Seq<char>,
    i: int,
    alias: Option<Seq<char>>,
    parallel: Option<Seq<char>>,
)
    requires
        0 <= i <= s.len(),
    ensures
        attributes_from(s, i, alias, parallel) matches Err(p) ==> 0 <= p <= s.len(),
    decreases s.len() - i,
{
    let j = run_end(s, i, CharClass::Space);
    lemma_run_end(s, i, CharClass::Space);
    if j < s.len() && s[j] == ';' {
        lemma_attribute_end(s, j + 1);
        lemma_run_end(s, j + 1, CharClass::Space);
        match attribute_at(s, j + 1) {
            None => {},
            Some((k, v, e)) => {
                let (a, p) = with_attribute(k, v, alias, parallel);
                lemma_attributes_err(s, e, a, p);
            },
        }
    }
}

#[via_fn]
proof fn attributes_from_decreases(
    s: Seq<char>,
    i: int,
    alias: Option<Seq<char>>,
    parallel: Option<Seq<char>>,
) {
    if 0 <= i <= s.len() {
        let j = run_end(s, i, CharClass::Space);
        lemma_run_end(s, i, CharClass::Space);
        if j < s.len() && s[j] == ';' {
            lemma_attribute_end(s, j + 1);
        }
    }
}

/// The declaration `s`, parsed; `Err(p)` where it stops following the grammar at `p`.
pub open spec fn parse_declaration(s: Seq<char>) -> Result<SpecView, int> {
    let i = run_end(s, 0, CharClass::Space);
    match url_at(s, i) {
        None => Err(i),
        Some((url, name, e)) => match branch_at(s, e) {
            Err(p) => Err(p),
            Ok((branch, b)) => match attributes_from(s, b, None, None) {
                Err(p) => Err(p),
                Ok((alias, parallel)) => Ok(SpecView { name, url, branch, alias, parallel }),
            },
        },
    }
}

/// Whether `u` reads `ident '/' ident`: two non-empty names of identifier
/// characters around one `/`.
pub open spec fn is_ident_pair(u: Seq<char>) -> bool {
    exists|k: int|
        0 < k < u.len() - 1 && u[k] == '/' && forall|j: int|
            0 <= j < u.len() && j != k ==> in_class(CharClass::Ident, #[trigger] u[j])
}

/// What `short_url_at` finds reads `ident '/' ident`.
proof fn lemma_short_url_shape(s: Seq<char>, j: int)
    requires
        0 <= j <= s.len(),
    ensures
        short_url_at(s, j) matches Some((t, _, _)) ==> is_ident_pair(t),
{
    let u = run_end(s, j, CharClass::Ident);
    lemma_run_end(s, j, CharClass::Ident);
    if u > j && u < s.len() && s[u] == '/' {
        let r = run_end(s, u + 1, CharClass::Ident);
        lemma_run_end(s, u + 1, CharClass::Ident);
        if r > u + 1 {
            let t = s.subrange(j, r);
            let k = u - j;
            assert(t[k] == '/');
            assert forall|m: int| 0 <= m < t.len() && m != k implies in_class(CharClass::Ident, #[trigger] t[m]) by {
                assert(t[m] == s[j + m]);
            }
        }
    }
}

/// The repository reference of a parsed declaration keeps the shape its kind
/// promises: a short or provider-prefixed reference reads `ident '/' ident`.
pub proof fn parsed_short_urls_are_ident_pairs(s: Seq<char>)
    ensures
        parse_declaration(s) matches Ok(v) ==> match v.url {
            RepoUrlView::Short(u) => is_ident_pair(u),
            RepoUrlView::Alias(_, u) => is_ident_pair(u),
            RepoUrlView::Full(_) => true,
        },
{
    let i = run_end(s, 0, CharClass::Space);
    lemma_run_end(s, 0, CharClass::Space);
    lemma_short_url_shape(s, i);
    let a = run_end(s, i, CharClass::Letter);
    lemma_run_end(s, i, CharClass::Letter);
    if a < s.len() {
        lemma_short_url_shape(s, a + 1);
    }
}

/// What `parse_spec` returns for the declaration `s`.
pub open spec fn spec_result_matches(s: Seq<char>, r: Result<Spec, SpecError>) -> bool {
    if s.len() == 0 {
        r matches Err(SpecError::EmptySpec)
    } else {
        match parse_declaration(s) {
            Ok(v) => r matches Ok(spec) && spec@ == v,
            Err(p) => r matches Err(SpecError::SyntaxError(t)) && t@ == s.subrange(p, s.len() as int),
        }
    }
}

// ---------------------------------------------------------------------------
// The parser.

/// The repository name of the full URL `s[i..e]`.
fn repo_name(s: &[char], i: usize, e: usize) -> (r: String)
    requires
        i <= e <= s@.len(),
    ensures
        r@ == repo_name_of(s@.subrange(i as int, e as int)),
{
    let ghost t = s@.subrange(i as int, e as int);
    let mut k = e;
    while k > i && s[k - 1] != '/'
        invariant
            i <= k <= e <= s@.len(),
            t == s@.subrange(i as int, e as int),
            segment_start(t, t.len() as int) == segment_start(t, k - i),
        decreases k,
    {
        k = k - 1;
    }
    assert(segment_start(t, k - i) == k - i);
    let ghost seg = t.subrange(k - i, t.len() as int);
    assert(seg =~= s@.subrange(k as int, e as int));
    proof {
        reveal_strlit(".git");
    }
    if e - k >= 4 && matches_at(s, e - 4, ".git") {
        assert(seg.subrange(seg.len() - 4, seg.len() as int) =~= s@.subrange(e - 4, e as int));
        assert(seg.subrange(0, seg.len() - 4) =~= s@.subrange(k as int, e - 4));
        string_of(s, k, e - 4)
    } else {
        proof {
            if seg.len() >= 4 {
                assert(seg.subrange(seg.len() - 4, seg.len() as int) =~= s@.subrange(e - 4, e as int));
            }
        }
        string_of(s, k, e)
    }
}

/// `ident '/' ident` at `j`.
fn short_url(s: &[char], j: usize) -> (r: Option<(String, String, usize)>)
    requires
        j <= s@.len(),
    ensures
        match short_url_at(s@, j as int) {
            None => r is None,
            Some((t, n, e)) => r matches Some((rt, rn, re)) && rt@ == t && rn@ == n && re == e,
        },
{
    let u = scan(s, j, CharClass::Ident);
    if u > j && u < s.len() && s[u] == '/' {
        let r = scan(s, u + 1, CharClass::Ident);
        if r > u + 1 {
            Some((string_of(s, j, r), string_of(s, u + 1, r), r))
        } else {
            None
        }
    } else {
        None
    }
}

/// A full URL at `i`.
fn full_url(s: &[char], i: usize) -> (r: Option<(RepoUrl, String, usize)>)
    requires
        i <= s@.len(),
    ensures
        match full_url_at(s@, i as int) {
            None => r is None,
            Some((u, n, e)) => r matches Some((ru, rn, re)) && ru@ == u && rn@ == n && re == e,
        },
{
    proof {
        reveal_strlit("://");
    }
    let a = scan(s, i, CharClass::Letter);
    if a > i && s.len() - a >= 3 && matches_at(s, a, "://") {
        let e = scan(s, a + 3, CharClass::Url);
        let name = repo_name(s, i, e);
        if !name.as_str().is_empty() {
            Some((RepoUrl::Full(string_of(s, i, e)), name, e))
        } else {
            None
        }
    } else {
        None
    }
}

/// A provider prefix, `:`, and a short URL at `i`.
fn alias_url(s: &[char], i: usize) -> (r: Option<(RepoUrl, String, usize)>)
    requires
        i <= s@.len(),
    ensures
        match alias_url_at(s@, i as int) {
            None => r is None,
            Some((u, n, e)) => r matches Some((ru, rn, re)) && ru@ == u && rn@ == n && re == e,
        },
{
    let a = scan(s, i, CharClass::Letter);
    if a > i && a < s.len() && s[a] == ':' {
        let prefix = string_of(s, i, a);
        match UrlAlias::from_prefix(prefix.as_str()) {
            Some(al) => match short_url(s, a + 1) {
                Some((t, n, e)) => Some((RepoUrl::Alias(al, t), n, e)),
                None => None,
            },
            None => None,
        }
    } else {
        None
    }
}

/// The repository reference at `i`.
fn repo_url(s: &[char], i: usize) -> (r: Option<(RepoUrl, String, usize)>)
    requires
        i <= s@.len(),
    ensures
        match url_at(s@, i as int) {
            None => r is None,
            Some((u, n, e)) => r matches Some((ru, rn, re)) && ru@ == u && rn@ == n && re == e,
        },
{
    let full = full_url(s, i);
    if full.is_some() {
        return full;
    }
    let alias = alias_url(s, i);
    if alias.is_some() {
        return alias;
    }
    match short_url(s, i) {
        Some((t, n, e)) => Some((RepoUrl::Short(t), n, e)),
        None => None,
    }
}

/// The text between the quotes of a double-quoted value, `s[from..to]`, with each `\"` read as `"`.
pub(crate) fn unescaped(s: &[char], from: usize, to: usize) -> (r: String)
    requires
        from <= to <= s@.len(),
    ensures
        r@ == unescape(s@.subrange(from as int, to as int)),
{
    let mut out = String::new();
    let mut k = from;
    while k < to
        invariant
            from <= k <= to <= s@.len(),
            out@ + unescape(s@.subrange(k as int, to as int)) == unescape(
                s@.subrange(from as int, to as int),
            ),
        decreases to - k,
    {
        let ghost t = s@.subrange(k as int, to as int);
        if to - k >= 2 && s[k] == '\\' && s[k + 1] == '"' {
            assert(t.subrange(2, t.len() as int) =~= s@.subrange(k + 2, to as int));
            assert(out@.push('"') + unescape(s@.subrange(k + 2, to as int)) =~= out@ + unescape(t));
            push_char(&mut out, '"');
            k = k + 2;
        } else {
            assert(t.subrange(1, t.len() as int) =~= s@.subrange(k + 1, to as int));
            assert(out@.push(s@[k as int]) + unescape(s@.subrange(k + 1, to as int)) =~= out@
                + unescape(t));
            push_char(&mut out, s[k]);
            k = k + 1;
        }
    }
    assert(s@.subrange(to as int, to as int) =~= Seq::<char>::empty());
    assert(out@ + Seq::<char>::empty() =~= out@);
    out
}

/// The closing quote of a double-quoted value whose text starts at `k`.
pub(crate) fn closing(s: &[char], k: usize) -> (r: Option<usize>)
    requires
        k <= s@.len(),
    ensures
        r == (match closing_quote(s@, k as int) {
            Some(c) => Some(c as usize),
            None => None::<usize>,
        }),
{
    let mut j = k;
    while j < s.len()
        invariant
            k <= j <= s@.len() + 1,
            closing_quote(s@, k as int) == closing_quote(s@, j as int),
        decreases s@.len() + 1 - j,
    {
        if s[j] == '"' {
            return Some(j);
        } else if s[j] == '\\' && j + 1 < s.len() {
            j = j + 2;
        } else {
            j = j + 1;
        }
    }
    None
}

/// An attribute value at `v`.
fn value(s: &[char], v: usize) -> (r: Option<(String, usize)>)
    requires
        v <= s@.len(),
    ensures
        match value_at(s@, v as int) {
            None => r is None,
            Some((t, e)) => r matches Some((rt, re)) && rt@ == t && re == e,
        },
{
    if v < s.len() && s[v] == '"' {
        proof {
            lemma_closing_quote(s@, v + 1);
        }
        match closing(s, v + 1) {
            Some(c) => Some((unescaped(s, v + 1, c), c + 1)),
            None => None,
        }
    } else if v < s.len() && s[v] == '\'' {
        proof {
            lemma_find_char(s@, v + 1, '\'');
        }
        match find(s, v + 1, '\'') {
            Some(c) => Some((string_of(s, v + 1, c), c + 1)),
            None => None,
        }
    } else {
        let b = scan(s, v, CharClass::Bare);
        if b > v {
            Some((string_of(s, v, b), b))
        } else {
            None
        }
    }
}

/// `key '=' value` at `i`.
fn attribute(s: &[char], i: usize) -> (r: Option<(String, String, usize)>)
    requires
        i <= s@.len(),
    ensures
        match attribute_at(s@, i as int) {
            None => r is None,
            Some((k, v, e)) => r matches Some((rk, rv, re)) && rk@ == k && rv@ == v && re == e,
        },
{
    let k0 = scan(s, i, CharClass::Space);
    let k1 = scan(s, k0, CharClass::Key);
    let q = scan(s, k1, CharClass::Space);
    if k1 > k0 && q < s.len() && s[q] == '=' {
        let v0 = scan(s, q + 1, CharClass::Space);
        match value(s, v0) {
            Some((v, e)) => Some((string_of(s, k0, k1), v, e)),
            None => None,
        }
    } else {
        None
    }
}

/// The attributes from `b` to the end of the declaration.
fn attributes(s: &[char], b: usize) -> (r: Result<(Option<String>, Option<String>), usize>)
    requires
        b <= s@.len(),
    ensures
        match attributes_from(s@, b as int, None, None) {
            Ok((a, p)) => r matches Ok((ra, rp)) && opt_view(ra) == a && opt_view(rp) == p,
            Err(p) => r == Err::<(Option<String>, Option<String>), usize>(p as usize),
        },
{
    let mut alias: Option<String> = None;
    let mut parallel: Option<String> = None;
    let mut i = b;
    loop
        invariant
            i <= s@.len(),
            attributes_from(s@, i as int, opt_view(alias), opt_view(parallel)) == attributes_from(
                s@,
                b as int,
                None,
                None,
            ),
        decreases s@.len() - i,
    {
        let j = scan(s, i, CharClass::Space);
        if j >= s.len() {
            return Ok((alias, parallel));
        }
        if s[j] != ';' {
            return Err(j);
        }
        proof {
            lemma_attribute_end(s@, j + 1);
        }
        match attribute(s, j + 1) {
            None => {
                return Err(scan(s, j + 1, CharClass::Space));
            },
            Some((k, v, e)) => {
                match Attribute::from_key(k.as_str()) {
                    Some(Attribute::Alias) => {
                        alias = Some(v);
                    },
                    Some(Attribute::Parallel) => {
                        parallel = Some(v);
                    },
                    None => {},
                }
                i = e;
            },
        }
    }
}

/// Parses one plugin declaration, such as `user/repo`, `user/repo#branch`,
/// `https://host/path.git`, `github:user/repo`, any of them followed by
/// `; key=value` attributes.
pub fn parse_spec(value: &str) -> (r: Result<Spec, SpecError>)
    ensures
        spec_result_matches(value@, r),
{
    let s = chars_of(value);
    if s.len() == 0 {
        return Err(SpecError::EmptySpec);
    }
    let s = s.as_slice();
    let i = scan(s, 0, CharClass::Space);
    proof {
        lemma_url_end(s@, i as int);
    }
    let (url, name, e) = match repo_url(s, i) {
        None => {
            return Err(SpecError::SyntaxError(string_of(s, i, s.len())));
        },
        Some(found) => found,
    };
    let (branch, b) = if e < s.len() && s[e] == '#' {
        let b = scan(s, e + 1, CharClass::Branch);
        if b > e + 1 {
            (Some(string_of(s, e + 1, b)), b)
        } else {
            return Err(SpecError::SyntaxError(string_of(s, e, s.len())));
        }
    } else {
        (None, e)
    };
    proof {
        lemma_attributes_err(s@, b as int, None, None);
    }
    match attributes(s, b) {
        Err(p) => Err(SpecError::SyntaxError(string_of(s, p, s.len()))),
        Ok((alias, parallel)) => Ok(Spec { name, url, branch, alias, parallel }),
    }
}

impl Spec {
    /// The repository name, from the last path segment of the repository reference.
    pub fn name(&self) -> (r: &String)
        ensures
            r@ == self@.name,
    {
        &self.name
    }

    /// The repository reference.
    pub fn url(&self) -> (r: &RepoUrl)
        ensures
            r@ == self@.url,
    {
        &self.url
    }

    /// The branch to fetch, if the declaration names one.
    pub fn branch(&self) -> (r: Option<&str>)
        ensures
            self@.branch is None ==> r is None,
            self@.branch matches Some(b) ==> (r matches Some(rb) && rb@ == b),
    {
        match &self.branch {
            Some(b) => Some(b.as_str()),
            None => None,
        }
    }

    /// The value of one attribute, if the declaration sets it.
    pub fn attribute(&self, key: Attribute) -> (r: Option<&String>)
        ensures
            !self@.attributes().contains_key(key) ==> r is None,
            self@.attributes().contains_key(key) ==> (r matches Some(v) && v@
                == self@.attributes()[key]),
    {
        match key {
            Attribute::Alias => match &self.alias {
                Some(a) => Some(a),
                None => None,
            },
            Attribute::Parallel => match &self.parallel {
                Some(p) => Some(p),
                None => None,
            },
        }
    }

    /// The attributes that the declaration sets, `alias` before `parallel`.
    pub fn attributes(&self) -> (r: Vec<(Attribute, String)>)
        ensures
            r@.len() == self@.attributes().len(),
            forall|i: int|
                0 <= i < r@.len() ==> #[trigger] self@.attributes().contains_key(r@[i].0)
                    && self@.attributes()[r@[i].0] == r@[i].1@,
            forall|i: int, j: int| 0 <= i < j < r@.len() ==> r@[i].0 != r@[j].0,
    {
        let mut r: Vec<(Attribute, String)> = Vec::new();
        let ghost m = self@.attributes();
        match &self.alias {
            Some(a) => r.push((Attribute::Alias, a.clone())),
            None => {},
        }
        match &self.parallel {
            Some(p) => r.push((Attribute::Parallel, p.clone())),
            None => {},
        }
        proof {
            let e = Map::<Attribute, Seq<char>>::empty();
            if self@.alias is Some {
                assert(e.insert(Attribute::Alias, self@.alias->0).dom() =~= set![Attribute::Alias]);
            }
            if self@.alias is Some && self@.parallel is Some {
                assert(m.dom() =~= set![Attribute::Alias, Attribute::Parallel]);
            } else if self@.alias is Some {
                assert(m.dom() =~= set![Attribute::Alias]);
            } else if self@.parallel is Some {
                assert(m.dom() =~= set![Attribute::Parallel]);
            } else {
                assert(m.dom() =~= Set::<Attribute>::empty());
            }
        }
        r
    }

    /// The plugin's local identity: the `alias` attribute where there is one, else the name.
    pub fn effective_name(&self) -> (r: &String)
        ensures
            r@ == self@.effective_name(),
    {
        match &self.alias {
            Some(a) => a,
            None => &self.name,
        }
    }

    /// Parses a declaration of the legacy `@tpm_plugins` list. Such a declaration
    /// carries no attributes; the plugin is marked `parallel=false`.
    pub fn try_from_legacy(value: &str) -> (r: Result<Spec, SpecError>)
        ensures
            value@.contains(';') ==> (r matches Err(SpecError::LegacyAttributes(t)) && t@ == value@),
            !value@.contains(';') ==> spec_result_matches(value@ + "; parallel=false"@, r),
    {
        let s = chars_of(value);
        match find(s.as_slice(), 0, ';') {
            Some(p) => {
                return Err(SpecError::LegacyAttributes(string_of(s.as_slice(), 0, s.len())));
            },
            None => {},
        }
        proof {
            lemma_find_none_from(s@, 0, ';');
            assert(s@.subrange(0, s@.len() as int) =~= s@);
        }
        let mut text = string_of(s.as_slice(), 0, s.len());
        push_str(&mut text, "; parallel=false");
        parse_spec(text.as_str())
    }
}

impl<'a> TryFrom<&'a str> for Spec {
    type Error = SpecError;

    /// Parses a declaration; see [`parse_spec`], whose contract this follows.
    fn try_from(value: &'a str) -> (r: Result<Spec, SpecError>) {
        parse_spec(value)
    }
}

impl<'a> vstd::std_specs::convert::TryFromSpecImpl<&'a str> for Spec {
    open spec fn obeys_try_from_spec() -> bool {
        false
    }

    open spec fn try_from_spec(value: &'a str) -> Result<Spec, SpecError> {
        arbitrary()
    }
}

} // verus!
