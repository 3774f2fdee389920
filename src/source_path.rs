//! Where a `source` directive of the tmux configuration points to.

use vstd::prelude::*;

use crate::text::{
    chars_of, lemma_run_end, matches_at, push_char, push_range, push_str, run_end, scan, CharClass,
};

verus! {

/// The text that stands for the directory of the configuration file being read.
pub open spec fn current_dir_marker() -> Seq<char> {
    "#{d:current_file}"@
}

/// `p` without its leading `/` characters.
pub open spec fn trim_leading_slashes(p: Seq<char>) -> Seq<char> {
    p.subrange(run_end(p, 0, CharClass::Slash), p.len() as int)
}

/// `rest` appended to `base` as a path: with one `/` between them where `base`
/// does not end in one; an empty `rest` leaves `base` as it is, and an empty
/// `base` gives `rest`.
pub open spec fn join_path(base: Seq<char>, rest: Seq<char>) -> Seq<char> {
    if rest.len() == 0 {
        base
    } else if base.len() == 0 {
        rest
    } else if base[base.len() - 1] == '/' {
        base + rest
    } else {
        base + seq!['/'] + rest
    }
}

/// The path that a `source` directive names: after the marker of the current
/// file's directory, it is relative to `config_dir`; with a leading `/`, to the
/// root; otherwise, to `start_path`, the directory that tmux was started in.
pub open spec fn resolve_source(path: Seq<char>, config_dir: Seq<char>, start_path: Seq<char>) -> Seq<char> {
    let m = current_dir_marker();
    if path.len() >= m.len() && path.subrange(0, m.len() as int) == m {
        join_path(config_dir, trim_leading_slashes(path.subrange(m.len() as int, path.len() as int)))
    } else if path.len() > 0 && path[0] == '/' {
        join_path(seq!['/'], trim_leading_slashes(path))
    } else {
        join_path(start_path, trim_leading_slashes(path))
    }
}

/// Appends `rest[from..]` to `base` as a path.
fn join_onto(base: &str, rest: &[char], from: usize) -> (r: String)
    requires
        from <= rest@.len(),
    ensures
        r@ == join_path(base@, rest@.subrange(from as int, rest@.len() as int)),
{
    let mut r = String::new();
    push_str(&mut r, base);
    assert(Seq::<char>::empty() + base@ =~= base@);
    if from == rest.len() {
        return r;
    }
    let b = chars_of(base);
    if b.len() > 0 && b[b.len() - 1] != '/' {
        push_char(&mut r, '/');
    }
    push_range(&mut r, rest, from, rest.len());
    proof {
        if base@.len() == 0 {
            assert(Seq::<char>::empty() + rest@.subrange(from as int, rest@.len() as int)
                =~= rest@.subrange(from as int, rest@.len() as int));
        } else if base@[base@.len() - 1] != '/' {
            assert(base@.push('/') =~= base@ + seq!['/']);
        }
    }
    r
}

/// Resolves the path of a `source` directive (see [`resolve_source`]).
pub fn parse(path: &str, config_dir: &str, start_path: &str) -> (r: String)
    ensures
        r@ == resolve_source(path@, config_dir@, start_path@),
{
    let p = chars_of(path);
    let p = p.as_slice();
    proof {
        reveal_strlit("#{d:current_file}");
    }
    if matches_at(p, 0, "#{d:current_file}") {
        let m: usize = 17;
        let k = scan(p, m, CharClass::Slash);
        proof {
            let rest = p@.subrange(m as int, p@.len() as int);
            lemma_run_end(p@, m as int, CharClass::Slash);
            lemma_shifted_run(p@, m as int, 0, CharClass::Slash);
            assert(trim_leading_slashes(rest) =~= p@.subrange(k as int, p@.len() as int));
        }
        join_onto(config_dir, p, k)
    } else {
        let k = scan(p, 0, CharClass::Slash);
        proof {
            assert(p@.subrange(0, p@.len() as int) =~= p@);
        }
        if p.len() > 0 && p[0] == '/' {
            proof {
                reveal_strlit("/");
                assert("/"@ =~= seq!['/']);
            }
            join_onto("/", p, k)
        } else {
            join_onto(start_path, p, k)
        }
    }
}

/// A run in a suffix of a text is the same run in the whole text, shifted.
proof fn lemma_shifted_run(s: Seq<char>, m: int, j: int, k: CharClass)
    requires
        0 <= m <= s.len(),
        0 <= j <= s.len() - m,
    ensures
        run_end(s.subrange(m, s.len() as int), j, k) + m == run_end(s, m + j, k),
    decreases s.len() - m - j,
{
    if j < s.len() - m {
        lemma_shifted_run(s, m, j + 1, k);
    }
}

/// The directory of the file at `path`: what stands before its last `/`; the
/// root for a file in the root, and an empty text for a bare file name.
pub open spec fn parent_of(path: Seq<char>) -> Seq<char> {
    let k = last_slash(path, path.len() as int);
    if k < 0 {
        Seq::empty()
    } else if k == 0 {
        seq!['/']
    } else {
        path.subrange(0, k)
    }
}

/// The position of the last `/` before `k`, or -1.
pub open spec fn last_slash(path: Seq<char>, k: int) -> int
    decreases k,
{
    if k <= 0 {
        -1
    } else if path[k - 1] == '/' {
        k - 1
    } else {
        last_slash(path, k - 1)
    }
}

/// The directory of the configuration file at `path` (see [`parent_of`]).
pub fn config_dir_of(path: &str) -> (r: String)
    ensures
        r@ == parent_of(path@),
{
    let p = chars_of(path);
    let mut k = p.len();
    while k > 0 && p[k - 1] != '/'
        invariant
            k <= p@.len(),
            p@ == path@,
            last_slash(p@, p@.len() as int) == last_slash(p@, k as int),
        decreases k,
    {
        k = k - 1;
    }
    let mut r = String::new();
    if k == 0 {
        assert(Seq::<char>::empty() =~= r@);
    } else if k == 1 {
        push_char(&mut r, '/');
        assert(Seq::<char>::empty().push('/') =~= seq!['/']);
    } else {
        push_range(&mut r, p.as_slice(), 0, k - 1);
        assert(Seq::<char>::empty() + p@.subrange(0, k - 1) =~= p@.subrange(0, k - 1));
    }
    r
}

/// `rest` appended to `base` as a path (see [`join_path`]).
pub fn join(base: &str, rest: &str) -> (r: String)
    ensures
        r@ == join_path(base@, rest@),
{
    let v = chars_of(rest);
    assert(v@.subrange(0, v@.len() as int) =~= v@);
    join_onto(base, v.as_slice(), 0)
}

} // verus!
