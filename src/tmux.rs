//! Where tmux keeps its configuration and its plugins.

use vstd::prelude::*;

use crate::source_path::{join, join_path};
use crate::text::push_str;

verus! {

/// The plugin root under the user's data directory.
pub open spec fn spec_plugins_dir(data_dir: Seq<char>) -> Seq<char> {
    join_path(data_dir, "tmux/plugins"@)
}

/// The plugin root under the user's data directory `data_dir`.
pub fn get_plugins_dir(data_dir: &str) -> (r: String)
    ensures
        r@ == spec_plugins_dir(data_dir@),
{
    join(data_dir, "tmux/plugins")
}

/// The places of the configuration files, in the order they are read: the
/// system-wide file, the file in the home directory, then the one in the
/// user's configuration directory.
pub open spec fn config_candidates(home: Seq<char>, config_dir: Seq<char>) -> Seq<Seq<char>> {
    seq!["/etc/tmux.conf"@, join_path(home, ".tmux.conf"@), join_path(config_dir, "tmux/tmux.conf"@)]
}

/// The places of the configuration files, for the home directory `home` and
/// the configuration directory `config_dir` (see [`config_candidates`]).
pub fn config_paths(home: &str, config_dir: &str) -> (r: Vec<String>)
    ensures
        r@.len() == 3,
        forall|k: int| 0 <= k < 3 ==> (#[trigger] r@[k])@ == config_candidates(home@, config_dir@)[k],
{
    let mut system = String::new();
    push_str(&mut system, "/etc/tmux.conf");
    assert(Seq::<char>::empty() + "/etc/tmux.conf"@ =~= "/etc/tmux.conf"@);
    let mut r: Vec<String> = Vec::new();
    r.push(system);
    r.push(join(home, ".tmux.conf"));
    r.push(join(config_dir, "tmux/tmux.conf"));
    r
}

/// The configuration files that exist among the candidates, in order;
/// `exists` tells, for each candidate, whether it exists.
pub fn existing_config_paths(candidates: Vec<String>, exists: &Vec<bool>) -> (r: Vec<String>)
    requires
        exists@.len() == candidates@.len(),
    ensures
        r@ == kept_paths(candidates@, exists@),
{
    let ghost orig = candidates@;
    let n = candidates.len();
    let mut stack = crate::utils::reversed(candidates);
    let mut out: Vec<String> = Vec::new();
    let mut i: usize = 0;
    while stack.len() > 0
        invariant
            orig.len() == n,
            exists@.len() == n,
            i + stack@.len() == n,
            stack@ == orig.subrange(i as int, n as int).reverse(),
            out@ == kept_paths(orig.take(i as int), exists@.take(i as int)),
        decreases stack@.len(),
    {
        let ghost before = stack@;
        let p = stack.pop().unwrap();
        proof {
            assert(p == orig[i as int]);
            assert(stack@ =~= orig.subrange(i + 1, n as int).reverse());
            assert(orig.take(i + 1).drop_last() =~= orig.take(i as int));
            assert(exists@.take(i + 1).drop_last() =~= exists@.take(i as int));
        }
        if exists[i] {
            out.push(p);
        }
        i = i + 1;
    }
    proof {
        assert(orig.take(n as int) =~= orig);
        assert(exists@.take(n as int) =~= exists@);
    }
    out
}

/// The items whose flag is set, in order.
pub open spec fn kept_paths(items: Seq<String>, flags: Seq<bool>) -> Seq<String>
    decreases items.len(),
{
    if items.len() == 0 || flags.len() != items.len() {
        Seq::empty()
    } else {
        let prev = kept_paths(items.drop_last(), flags.drop_last());
        if flags.last() {
            prev.push(items.last())
        } else {
            prev
        }
    }
}

} // verus!
