//! The tmux configuration file: the plugin declarations and `source`
//! directives it holds.
//!
//! A line declares a plugin when it reads `set[-option] [flags] @plugin <value>`,
//! and includes another file when it reads `source[-file] [flags] <path>`; a
//! value is a single- or double-quoted string or a bare word, and may be
//! followed by blanks and a `#` comment. Every other line is left alone.

use vstd::prelude::*;

use crate::plugin_spec::{
    closing, closing_quote, lemma_closing_quote, parse_declaration, parse_spec,
    spec_result_matches, unescape, unescaped, Spec, SpecError, SpecView,
};
use crate::source_path::{self, resolve_source};
use crate::text::{
    chars_of, find, find_char, lemma_find_char, lemma_run_end, line_end, lines_from, run_end,
    scan, str_eq, string_of, sub_vec, CharClass,
};

verus! {

/// One directive of a configuration file.
#[derive(Debug)]
pub enum ConfigDirective {
    /// A plugin declaration.
    PluginSpec(Spec),
    /// A file to read as well, by its resolved path.
    Source(String),
}

/// What a [`ConfigDirective`] holds.
pub enum ConfigDirectiveView {
    PluginSpec(SpecView),
    Source(Seq<char>),
}

impl View for ConfigDirective {
    type V = ConfigDirectiveView;

    open spec fn view(&self) -> ConfigDirectiveView {
        match self {
            ConfigDirective::PluginSpec(s) => ConfigDirectiveView::PluginSpec(s@),
            ConfigDirective::Source(p) => ConfigDirectiveView::Source(p@),
        }
    }
}

/// Why a configuration file was refused. Lines are counted from 1.
#[derive(Debug)]
pub enum ConfigError {
    /// A directive breaks the grammar; `text` is the line from where it does.
    Syntax { line: usize, text: String },
    /// A plugin declaration was refused.
    InvalidSpec { line: usize, error: SpecError },
}

// ---------------------------------------------------------------------------
// The grammar of one line (a line holds no line feed).

/// What one line of a configuration file holds.
pub enum LineOutcome {
    /// Nothing that concerns plugins.
    Skip,
    /// A plugin declaration, by its text.
    Plugin(Seq<char>),
    /// A `source` directive, by its resolved path.
    Source(Seq<char>),
    /// A directive that breaks the grammar at this position.
    Syntax(int),
}

/// Where the flags (words that start with `-`) from `k` end, blanks after them skipped.
pub open spec fn after_flags(l: Seq<char>, k: int) -> int
    decreases l.len() - k,
    via after_flags_decreases
{
    if !(0 <= k <= l.len()) {
        k
    } else {
        let b = run_end(l, k, CharClass::Blank);
        if b < l.len() && l[b] == '-' {
            after_flags(l, run_end(l, b, CharClass::Word))
        } else {
            b
        }
    }
}

#[via_fn]
proof fn after_flags_decreases(l: Seq<char>, k: int) {
    if 0 <= k <= l.len() {
        lemma_run_end(l, k, CharClass::Blank);
        let b = run_end(l, k, CharClass::Blank);
        if b < l.len() && l[b] == '-' {
            lemma_run_end(l, b, CharClass::Word);
        }
    }
}

/// A value at `v`: a double-quoted string (where `\"` stands for `"`), a
/// single-quoted string, or a bare word that does not start a comment.
pub open spec fn word_value_at(l: Seq<char>, v: int) -> Option<(Seq<char>, int)> {
    if 0 <= v < l.len() && l[v] == '"' {
        match closing_quote(l, v + 1) {
            Some(c) => Some((unescape(l.subrange(v + 1, c)), c + 1)),
            None => None,
        }
    } else if 0 <= v < l.len() && l[v] == '\'' {
        match find_char(l, v + 1, '\'') {
            Some(c) => Some((l.subrange(v + 1, c), c + 1)),
            None => None,
        }
    } else {
        let b = run_end(l, v, CharClass::Word);
        if b > v && l[v] != '#' {
            Some((l.subrange(v, b), b))
        } else {
            None
        }
    }
}

/// What the line holds after a value that ends at `e`: its outcome where only
/// blanks and a comment follow, else a syntax error where something else starts.
pub open spec fn ended(l: Seq<char>, e: int, outcome: LineOutcome) -> LineOutcome {
    let t = run_end(l, e, CharClass::Blank);
    if t >= l.len() || l[t] == '#' {
        outcome
    } else {
        LineOutcome::Syntax(t)
    }
}

/// What the line `l` holds; `source` paths are resolved against `config_dir` and `start_path`.
pub open spec fn line_outcome(l: Seq<char>, config_dir: Seq<char>, start_path: Seq<char>) -> LineOutcome {
    let w0 = run_end(l, 0, CharClass::Blank);
    let w1 = run_end(l, w0, CharClass::Word);
    let cmd = l.subrange(w0, w1);
    if cmd == "set"@ || cmd == "set-option"@ {
        let o0 = after_flags(l, w1);
        let o1 = run_end(l, o0, CharClass::Word);
        if l.subrange(o0, o1) != "@plugin"@ {
            LineOutcome::Skip
        } else {
            let v = run_end(l, o1, CharClass::Blank);
            match word_value_at(l, v) {
                None => LineOutcome::Syntax(v),
                Some((d, e)) => ended(l, e, LineOutcome::Plugin(d)),
            }
        }
    } else if cmd == "source"@ || cmd == "source-file"@ {
        let v = after_flags(l, w1);
        match word_value_at(l, v) {
            None => LineOutcome::Syntax(v),
            Some((p, e)) => ended(l, e, LineOutcome::Source(resolve_source(p, config_dir, start_path))),
        }
    } else {
        LineOutcome::Skip
    }
}

// ---------------------------------------------------------------------------
// The whole file.

/// Whether a line's outcome makes the file fail: a syntax error, or a
/// declaration that is refused.
pub open spec fn fails(o: LineOutcome) -> bool {
    match o {
        LineOutcome::Syntax(_) => true,
        LineOutcome::Plugin(d) => d.len() == 0 || parse_declaration(d) is Err,
        _ => false,
    }
}

/// The directives of the lines `ls`, in order.
pub open spec fn collected(ls: Seq<Seq<char>>, config_dir: Seq<char>, start_path: Seq<char>) -> Seq<ConfigDirectiveView>
    decreases ls.len(),
{
    if ls.len() == 0 {
        Seq::empty()
    } else {
        let prev = collected(ls.drop_last(), config_dir, start_path);
        match line_outcome(ls.last(), config_dir, start_path) {
            LineOutcome::Plugin(d) => prev.push(
                ConfigDirectiveView::PluginSpec(parse_declaration(d)->Ok_0),
            ),
            LineOutcome::Source(p) => prev.push(ConfigDirectiveView::Source(p)),
            _ => prev,
        }
    }
}

/// The views of a sequence of directives.
pub open spec fn views(v: Seq<ConfigDirective>) -> Seq<ConfigDirectiveView> {
    v.map_values(|d: ConfigDirective| d@)
}

/// Whether `e` is the error that the failing line `l`, number `line`, gives.
pub open spec fn line_error(l: Seq<char>, line: int, config_dir: Seq<char>, start_path: Seq<char>, e: ConfigError) -> bool {
    match line_outcome(l, config_dir, start_path) {
        LineOutcome::Syntax(p) => e matches ConfigError::Syntax { line: n, text } && n == line
            && text@ == l.subrange(p, l.len() as int),
        LineOutcome::Plugin(d) => e matches ConfigError::InvalidSpec { line: n, error } && n == line
            && spec_result_matches(d, Err(error)),
        _ => false,
    }
}

/// What `parse` returns for the text `s`: the directives of all lines where no
/// line fails, else the error of the first line that fails.
pub open spec fn config_result_matches(
    s: Seq<char>,
    config_dir: Seq<char>,
    start_path: Seq<char>,
    r: Result<Vec<ConfigDirective>, ConfigError>,
) -> bool {
    let ls = lines_from(s, 0);
    match r {
        Ok(v) => (forall|k: int| 0 <= k < ls.len() ==> !fails(#[trigger] line_outcome(ls[k], config_dir, start_path)))
            && views(v@) == collected(ls, config_dir, start_path),
        Err(e) => exists|k: int|
            0 <= k < ls.len() && (forall|j: int| 0 <= j < k ==> !fails(#[trigger] line_outcome(ls[j], config_dir, start_path)))
                && fails(line_outcome(ls[k], config_dir, start_path))
                && #[trigger] line_error(ls[k], k + 1, config_dir, start_path, e),
    }
}

// ---------------------------------------------------------------------------
// The parser.

/// What one line holds, with the texts it carries.
enum LineResult {
    Skip,
    Plugin(String),
    Source(String),
    Syntax(usize),
}

/// Where the flags from `k` end.
fn skip_flags(l: &[char], k: usize) -> (r: usize)
    requires
        k <= l@.len(),
    ensures
        r == after_flags(l@, k as int),
        r <= l@.len(),
{
    let mut j = k;
    loop
        invariant
            j <= l@.len(),
            after_flags(l@, k as int) == after_flags(l@, j as int),
        decreases l@.len() - j,
    {
        let b = scan(l, j, CharClass::Blank);
        if b < l.len() && l[b] == '-' {
            proof {
                lemma_run_end(l@, b as int, CharClass::Word);
            }
            j = scan(l, b, CharClass::Word);
        } else {
            return b;
        }
    }
}

/// A value at `v`.
fn word_value(l: &[char], v: usize) -> (r: Option<(String, usize)>)
    requires
        v <= l@.len(),
    ensures
        match word_value_at(l@, v as int) {
            None => r is None,
            Some((t, e)) => r matches Some((rt, re)) && rt@ == t && re == e,
        },
        r matches Some((_, e)) ==> e <= l@.len(),
{
    if v < l.len() && l[v] == '"' {
        proof {
            lemma_closing_quote(l@, v + 1);
        }
        match closing(l, v + 1) {
            Some(c) => Some((unescaped(l, v + 1, c), c + 1)),
            None => None,
        }
    } else if v < l.len() && l[v] == '\'' {
        proof {
            lemma_find_char(l@, v + 1, '\'');
        }
        match find(l, v + 1, '\'') {
            Some(c) => Some((string_of(l, v + 1, c), c + 1)),
            None => None,
        }
    } else {
        let b = scan(l, v, CharClass::Word);
        if b > v && l[v] != '#' {
            Some((string_of(l, v, b), b))
        } else {
            None
        }
    }
}

/// Whether only blanks and a comment follow `e`; else where something else starts.
fn line_rest(l: &[char], e: usize) -> (r: Result<(), usize>)
    requires
        e <= l@.len(),
    ensures
        ({
            let t = run_end(l@, e as int, CharClass::Blank);
            if t >= l@.len() || l@[t] == '#' {
                r is Ok
            } else {
                r == Err::<(), usize>(t as usize)
            }
        }),
{
    let t = scan(l, e, CharClass::Blank);
    if t >= l.len() || l[t] == '#' {
        Ok(())
    } else {
        Err(t)
    }
}

/// What the line `l` holds.
fn line_directive(l: &[char], config_dir: &str, start_path: &str) -> (r: LineResult)
    ensures
        match line_outcome(l@, config_dir@, start_path@) {
            LineOutcome::Skip => r is Skip,
            LineOutcome::Plugin(d) => r matches LineResult::Plugin(x) && x@ == d,
            LineOutcome::Source(p) => r matches LineResult::Source(x) && x@ == p,
            LineOutcome::Syntax(p) => r == LineResult::Syntax(p as usize),
        },
{
    proof {
        reveal_strlit("set");
        reveal_strlit("set-option");
        reveal_strlit("source");
        reveal_strlit("source-file");
        reveal_strlit("@plugin");
    }
    let w0 = scan(l, 0, CharClass::Blank);
    let w1 = scan(l, w0, CharClass::Word);
    let cmd = string_of(l, w0, w1);
    let is_set = str_eq(cmd.as_str(), "set") || str_eq(cmd.as_str(), "set-option");
    let is_source = str_eq(cmd.as_str(), "source") || str_eq(cmd.as_str(), "source-file");
    if is_set {
        let o0 = skip_flags(l, w1);
        let o1 = scan(l, o0, CharClass::Word);
        let name = string_of(l, o0, o1);
        if !str_eq(name.as_str(), "@plugin") {
            return LineResult::Skip;
        }
        let v = scan(l, o1, CharClass::Blank);
        match word_value(l, v) {
            None => LineResult::Syntax(v),
            Some((d, e)) => match line_rest(l, e) {
                Ok(()) => LineResult::Plugin(d),
                Err(t) => LineResult::Syntax(t),
            },
        }
    } else if is_source {
        let v = skip_flags(l, w1);
        match word_value(l, v) {
            None => LineResult::Syntax(v),
            Some((p, e)) => match line_rest(l, e) {
                Ok(()) => LineResult::Source(source_path::parse(p.as_str(), config_dir, start_path)),
                Err(t) => LineResult::Syntax(t),
            },
        }
    } else {
        LineResult::Skip
    }
}

/// An empty line holds nothing that concerns plugins.
proof fn lemma_empty_line(config_dir: Seq<char>, start_path: Seq<char>)
    ensures
        line_outcome(Seq::empty(), config_dir, start_path) is Skip,
{
    reveal_strlit("set");
    reveal_strlit("set-option");
    reveal_strlit("source");
    reveal_strlit("source-file");
    let l = Seq::<char>::empty();
    assert(l.subrange(0, 0) =~= l);
}

/// Parses the text of a configuration file into its directives. `config_dir`
/// is the directory of the file and `start_path` the directory that tmux was
/// started in: `source` paths are resolved against them.
pub fn parse(config: &str, config_dir: &str, start_path: &str) -> (r: Result<Vec<ConfigDirective>, ConfigError>)
    ensures
        config_result_matches(config@, config_dir@, start_path@, r),
{
    let chars = chars_of(config);
    let s = chars.as_slice();
    let len = s.len();
    let ghost dir = config_dir@;
    let ghost start = start_path@;
    let mut out: Vec<ConfigDirective> = Vec::new();
    let mut i: usize = 0;
    let mut n: usize = 0;
    let ghost mut done: Seq<Seq<char>> = Seq::empty();
    loop
        invariant
            s@ == config@,
            len == s@.len(),
            n <= i <= s@.len(),
            done.len() == n,
            lines_from(s@, 0) == done + lines_from(s@, i as int),
            forall|k: int| 0 <= k < done.len() ==> !fails(#[trigger] line_outcome(done[k], dir, start)),
            views(out@) == collected(done, dir, start),
            dir == config_dir@,
            start == start_path@,
        decreases s@.len() - i,
    {
        proof {
            lemma_find_char(s@, i as int, '\n');
        }
        let found = find(s, i, '\n');
        let e = match found {
            Some(p) => p,
            None => s.len(),
        };
        proof {
            match find_char(s@, i as int, '\n') {
                Some(p) => {
                    assert(found == Some(p as usize));
                    assert(e == p);
                },
                None => {
                    assert(e == s@.len());
                },
            }
        }
        let line = sub_vec(s, i, e);
        let ghost l = line@;
        let ghost rest = if e < s@.len() {
            lines_from(s@, e + 1)
        } else {
            Seq::empty()
        };
        assert(e == line_end(s@, i as int));
        assert(lines_from(s@, i as int) == seq![l] + rest);
        assert(done + lines_from(s@, i as int) =~= done.push(l) + rest);
        let ghost next = done.push(l);
        assert(next.drop_last() =~= done);
        proof {
            if i == e {
                assert(l =~= Seq::<char>::empty());
                lemma_empty_line(dir, start);
            }
        }
        match line_directive(line.as_slice(), config_dir, start_path) {
            LineResult::Skip => {},
            LineResult::Source(p) => {
                out.push(ConfigDirective::Source(p));
            },
            LineResult::Plugin(d) => {
                match parse_spec(d.as_str()) {
                    Ok(spec) => {
                        out.push(ConfigDirective::PluginSpec(spec));
                    },
                    Err(error) => {
                        let r = Err(ConfigError::InvalidSpec { line: n + 1, error });
                        assert(lines_from(s@, 0)[n as int] == l);
                        assert(line_error(lines_from(s@, 0)[n as int], n + 1, dir, start, r->Err_0));
                        return r;
                    },
                }
            },
            LineResult::Syntax(p) => {
                proof {
                    lemma_syntax_within(l, dir, start);
                }
                let r = Err(ConfigError::Syntax { line: n + 1, text: string_of(line.as_slice(), p, line.len()) });
                assert(lines_from(s@, 0)[n as int] == l);
                assert(line_error(lines_from(s@, 0)[n as int], n + 1, dir, start, r->Err_0));
                return r;
            },
        }
        assert(views(out@) =~= collected(next, dir, start));
        proof {
            done = next;
        }
        if e >= s.len() {
            assert(lines_from(s@, 0) =~= done);
            return Ok(out);
        }
        n = n + 1;
        i = e + 1;
    }
}

/// A syntax error lies within the line.
proof fn lemma_syntax_within(l: Seq<char>, config_dir: Seq<char>, start_path: Seq<char>)
    ensures
        line_outcome(l, config_dir, start_path) matches LineOutcome::Syntax(p) ==> 0 <= p <= l.len(),
{
    lemma_run_end(l, 0, CharClass::Blank);
    let w0 = run_end(l, 0, CharClass::Blank);
    lemma_run_end(l, w0, CharClass::Word);
    let w1 = run_end(l, w0, CharClass::Word);
    lemma_after_flags(l, w1);
    let o0 = after_flags(l, w1);
    lemma_run_end(l, o0, CharClass::Word);
    let o1 = run_end(l, o0, CharClass::Word);
    lemma_run_end(l, o1, CharClass::Blank);
    let v = run_end(l, o1, CharClass::Blank);
    lemma_word_value_end(l, v);
    lemma_word_value_end(l, o0);
    match word_value_at(l, v) {
        Some((_, e)) => {
            lemma_run_end(l, e, CharClass::Blank);
        },
        None => {},
    }
    match word_value_at(l, o0) {
        Some((_, e)) => {
            lemma_run_end(l, e, CharClass::Blank);
        },
        None => {},
    }
}

proof fn lemma_after_flags(l: Seq<char>, k: int)
    requires
        0 <= k <= l.len(),
    ensures
        k <= after_flags(l, k) <= l.len(),
    decreases l.len() - k,
{
    lemma_run_end(l, k, CharClass::Blank);
    let b = run_end(l, k, CharClass::Blank);
    if b < l.len() && l[b] == '-' {
        lemma_run_end(l, b, CharClass::Word);
        lemma_after_flags(l, run_end(l, b, CharClass::Word));
    }
}

proof fn lemma_word_value_end(l: Seq<char>, v: int)
    requires
        0 <= v <= l.len(),
    ensures
        word_value_at(l, v) matches Some((_, e)) ==> v < e <= l.len(),
{
    lemma_run_end(l, v, CharClass::Word);
    if 0 <= v < l.len() && l[v] == '"' {
        lemma_closing_quote(l, v + 1);
    } else if 0 <= v < l.len() && l[v] == '\'' {
        lemma_find_char(l, v + 1, '\'');
    }
}

} // verus!
