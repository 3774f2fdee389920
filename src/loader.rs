//! Collecting the plugin declarations of the configuration files, following
//! `source` directives depth first. Reading a file is left to the caller: the
//! loader names the next file to read, and is handed its text.

use vstd::prelude::*;

use crate::plugin_spec::{Spec, SpecView};
use crate::source_path::{config_dir_of, parent_of};
use crate::text::lines_from;
use crate::tmux_config_parser::{
    collected, config_result_matches, fails, line_outcome, parse, views, ConfigDirective,
    ConfigDirectiveView, ConfigError,
};

verus! {

/// How deep `source` directives may nest: a file read at this depth may not
/// include another. This stops a file that includes itself.
pub const MAX_INCLUDE_DEPTH: usize = 16;

/// Why the declarations could not be collected.
#[derive(Debug)]
pub enum LoadError {
    /// No configuration file exists.
    NoConfigFiles,
    /// A configuration file was refused.
    Config { path: String, error: ConfigError },
    /// A file read at the deepest level includes another.
    TooDeep { path: String },
}

/// Something still to collect: a declaration, or a file to read at a depth.
#[derive(Debug)]
enum Pending {
    Spec(Spec),
    File(String, usize),
}

/// What a pending item holds.
pub enum PendingView {
    Spec(SpecView),
    File(Seq<char>, nat),
}

impl View for Pending {
    type V = PendingView;

    closed spec fn view(&self) -> PendingView {
        match self {
            Pending::Spec(s) => PendingView::Spec(s@),
            Pending::File(p, d) => PendingView::File(p@, *d as nat),
        }
    }
}

/// The pending items of the directives of a file read at depth `depth - 1`.
pub open spec fn pending_of(ds: Seq<ConfigDirectiveView>, depth: nat) -> Seq<PendingView> {
    ds.map_values(
        |d: ConfigDirectiveView|
            match d {
                ConfigDirectiveView::PluginSpec(s) => PendingView::Spec(s),
                ConfigDirectiveView::Source(p) => PendingView::File(p, depth),
            },
    )
}

/// Whether the directives include another file.
pub open spec fn has_source(ds: Seq<ConfigDirectiveView>) -> bool {
    exists|k: int| 0 <= k < ds.len() && ds[k] is Source
}

/// Whether every line of a configuration text is accepted.
pub open spec fn config_ok(text: Seq<char>, config_dir: Seq<char>, start_path: Seq<char>) -> bool {
    let ls = lines_from(text, 0);
    forall|k: int| 0 <= k < ls.len() ==> !fails(#[trigger] line_outcome(ls[k], config_dir, start_path))
}

/// The directives of a configuration text whose lines are all accepted.
pub open spec fn config_views(text: Seq<char>, config_dir: Seq<char>, start_path: Seq<char>) -> Seq<ConfigDirectiveView> {
    collected(lines_from(text, 0), config_dir, start_path)
}

/// The number of leading declarations of a queue, before its first file.
pub open spec fn leading_specs(q: Seq<PendingView>) -> int
    decreases q.len(),
{
    if q.len() == 0 || q[0] is File {
        0
    } else {
        1 + leading_specs(q.drop_first())
    }
}

/// The declarations of a sequence of declaration items.
pub open spec fn specs_in(q: Seq<PendingView>) -> Seq<SpecView> {
    q.map_values(|p: PendingView| p->Spec_0)
}

/// Starts collecting the declarations of the configuration files at
/// `config_paths`, in that order; with no file at all, fails.
pub fn load_specs(config_paths: Vec<String>) -> (r: Result<SpecLoader, LoadError>)
    ensures
        config_paths@.len() == 0 ==> r matches Err(LoadError::NoConfigFiles),
        config_paths@.len() > 0 ==> (r matches Ok(l) && l.collected().len() == 0 && l.current() is None
            && l.queue() == config_paths@.map_values(|p: String| PendingView::File(p@, 0))),
{
    if config_paths.len() == 0 {
        return Err(LoadError::NoConfigFiles);
    }
    let ghost want = config_paths@.map_values(|p: String| PendingView::File(p@, 0));
    let ghost orig = config_paths@;
    let n = config_paths.len();
    let mut rest = config_paths;
    let mut stack: Vec<Pending> = Vec::new();
    while rest.len() > 0
        invariant
            want.len() == n,
            orig.len() == n,
            want == orig.map_values(|p: String| PendingView::File(p@, 0)),
            rest@.len() <= n,
            rest@ == orig.take(rest@.len() as int),
            stack@.map_values(|q: Pending| q@) == want.subrange(rest@.len() as int, n as int).reverse(),
        decreases rest@.len(),
    {
        let ghost before = rest@;
        let ghost s0 = stack@;
        let p = rest.pop().unwrap();
        proof {
            let m = before.len() - 1;
            assert(p == orig[m]);
            assert(rest@ =~= orig.take(m));
        }
        stack.push(Pending::File(p, 0));
        proof {
            let m = before.len() - 1;
            assert(want[m] == Pending::File(p, 0)@);
            assert(stack@.map_values(|q: Pending| q@) =~= s0.map_values(|q: Pending| q@).push(want[m]));
            assert(want.subrange(m, n as int).reverse() =~= want.subrange(m + 1, n as int).reverse().push(want[m]));
        }
    }
    let l = SpecLoader { stack, specs: Vec::new(), current: None };
    proof {
        assert(want.subrange(0, n as int) =~= want);
        assert(l.queue() =~= want);
        assert(l.collected() =~= Seq::<SpecView>::empty());
    }
    Ok(l)
}

/// The collection of declarations under way.
pub struct SpecLoader {
    /// What is still to collect, the next item last.
    stack: Vec<Pending>,
    specs: Vec<Spec>,
    current: Option<(String, usize)>,
}

impl SpecLoader {
    /// What is still to collect, in order.
    pub closed spec fn queue(&self) -> Seq<PendingView> {
        self.stack@.map_values(|p: Pending| p@).reverse()
    }

    /// The declarations collected so far, in order.
    pub closed spec fn collected(&self) -> Seq<SpecView> {
        self.specs@.map_values(|s: Spec| s@)
    }

    /// The file handed out to read, with its depth, if any.
    pub closed spec fn current(&self) -> Option<(Seq<char>, nat)> {
        match self.current {
            Some((p, d)) => Some((p@, d as nat)),
            None => None,
        }
    }

    /// The next file to read, with its depth, after the leading declarations
    /// of the queue have been collected; `None` once nothing is left.
    pub fn next(&mut self) -> (r: Option<String>)
        ensures
            ({
                let q = old(self).queue();
                let f = leading_specs(q);
                &&& 0 <= f <= q.len()
                &&& final(self).collected() == old(self).collected() + specs_in(q.take(f))
                &&& f == q.len() ==> r is None && final(self).queue().len() == 0 && final(self).current() is None
                &&& f < q.len() ==> (q[f] matches PendingView::File(p, d) && r matches Some(rp) && rp@ == p
                    && final(self).current() == Some((p, d)) && final(self).queue() == q.subrange(f + 1, q.len() as int))
            }),
    {
        let ghost q = self.queue();
        let ghost c0 = self.collected();
        self.current = None;
        let ghost mut f: int = 0;
        proof {
            lemma_leading_specs(q);
        }
        loop
            invariant
                q == old(self).queue(),
                c0 == old(self).collected(),
                0 <= f <= leading_specs(q) <= q.len(),
                self.queue() == q.subrange(f, q.len() as int),
                self.collected() == c0 + specs_in(q.take(f)),
                self.current() is None,
                forall|k: int| 0 <= k < leading_specs(q) ==> q[k] is Spec,
                leading_specs(q) < q.len() ==> q[leading_specs(q)] is File,
            decreases q.len() - f,
        {
            let ghost before = self.stack@;
            proof {
                let qq = q.subrange(f, q.len() as int);
                assert(qq == before.map_values(|p: Pending| p@).reverse());
                if before.len() > 0 {
                    assert(qq[0] == before[before.len() - 1]@);
                    assert(q[f] == qq[0]);
                }
            }
            match self.stack.pop() {
                None => {
                    proof {
                        assert(self.queue() =~= Seq::<PendingView>::empty());
                    }
                    return None;
                },
                Some(Pending::Spec(s)) => {
                    proof {
                        assert(q[f] == PendingView::Spec(s@));
                        assert(self.stack@ =~= before.drop_last());
                        let m = before.map_values(|p: Pending| p@);
                        assert(self.stack@.map_values(|p: Pending| p@) =~= m.drop_last());
                        assert(m.drop_last().reverse() =~= m.reverse().drop_first());
                        assert(q.subrange(f, q.len() as int).drop_first() =~= q.subrange(f + 1, q.len() as int));
                        assert(self.queue() =~= q.subrange(f + 1, q.len() as int));
                        assert(q.take(f + 1) =~= q.take(f).push(q[f]));
                        assert(specs_in(q.take(f + 1)) =~= specs_in(q.take(f)).push(s@));
                        if f == leading_specs(q) {
                            assert(q[f] is File);
                        }
                    }
                    let ghost s0 = self.specs@;
                    self.specs.push(s);
                    proof {
                        assert(self.specs@ =~= s0.push(s));
                        assert(self.collected() =~= (c0 + specs_in(q.take(f))).push(s@));
                        assert(self.collected() =~= c0 + specs_in(q.take(f + 1)));
                    }
                    proof {
                        f = f + 1;
                    }
                },
                Some(Pending::File(p, d)) => {
                    proof {
                        assert(q[f] == PendingView::File(p@, d as nat));
                        assert(self.stack@ =~= before.drop_last());
                        let m = before.map_values(|p: Pending| p@);
                        assert(self.stack@.map_values(|p: Pending| p@) =~= m.drop_last());
                        assert(m.drop_last().reverse() =~= m.reverse().drop_first());
                        assert(q.subrange(f, q.len() as int).drop_first() =~= q.subrange(f + 1, q.len() as int));
                        assert(self.queue() =~= q.subrange(f + 1, q.len() as int));
                    }
                    let r = p.clone();
                    self.current = Some((p, d));
                    return Some(r);
                },
            }
        }
    }

    /// Reads the text of the file handed out by [`SpecLoader::next`]: its
    /// declarations and the files it includes take its place in the queue, in
    /// the order they stand in it. `start_path` is the directory that tmux was
    /// started in. Without a file handed out, nothing changes.
    pub fn feed(&mut self, text: &str, start_path: &str) -> (r: Result<(), LoadError>)
        ensures
            final(self).collected() == old(self).collected(),
            final(self).current() is None,
            old(self).current() is None ==> r is Ok && final(self).queue() == old(self).queue(),
            old(self).current() matches Some((p, d)) ==> ({
                let dir = parent_of(p);
                let ok = config_ok(text@, dir, start_path@);
                let ds = config_views(text@, dir, start_path@);
                &&& !ok ==> (r matches Err(LoadError::Config { path, error }) && path@ == p
                    && config_result_matches(text@, dir, start_path@, Err(error))
                    && final(self).queue() == old(self).queue())
                &&& ok && d >= MAX_INCLUDE_DEPTH && has_source(ds) ==> (r matches Err(
                    LoadError::TooDeep { path },
                ) && path@ == p && final(self).queue() == old(self).queue())
                &&& ok && !(d >= MAX_INCLUDE_DEPTH && has_source(ds)) ==> (r is Ok && final(self).queue()
                    == pending_of(ds, (d + 1) as nat) + old(self).queue())
            }),
    {
        let (path, d) = match self.current.take() {
            None => {
                return Ok(());
            },
            Some(c) => c,
        };
        let ghost p = path@;
        let ghost dir = parent_of(p);
        let config_dir = config_dir_of(path.as_str());
        let parsed = parse(text, config_dir.as_str(), start_path);
        let mut ds = match parsed {
            Err(error) => {
                return Err(LoadError::Config { path, error });
            },
            Ok(ds) => ds,
        };
        let ghost v = views(ds@);
        assert(config_ok(text@, dir, start_path@));
        assert(v == config_views(text@, dir, start_path@));
        let n = ds.len();
        let mut k: usize = 0;
        let mut includes = false;
        while k < n
            invariant
                self.collected() == old(self).collected(),
                self.current() is None,
                self.queue() == old(self).queue(),
                n == ds@.len(),
                v == views(ds@),
                k <= n,
                includes == exists|j: int| 0 <= j < k && v[j] is Source,
            decreases n - k,
        {
            if let ConfigDirective::Source(_) = &ds[k] {
                includes = true;
            }
            proof {
                assert(v[k as int] == ds@[k as int]@);
            }
            k = k + 1;
        }
        if includes && d >= MAX_INCLUDE_DEPTH {
            return Err(LoadError::TooDeep { path });
        }
        let next_depth = if d < MAX_INCLUDE_DEPTH {
            d + 1
        } else {
            d
        };
        proof {
            if !includes {
                assert(pending_of(v, next_depth as nat) =~= pending_of(v, (d + 1) as nat));
            }
        }
        let ghost old_stack = self.stack@.map_values(|q: Pending| q@);
        let ghost items = pending_of(v, (d + 1) as nat);
        let mut j: usize = 0;
        while ds.len() > 0
            invariant
                self.collected() == old(self).collected(),
                self.current() is None,
                old_stack == old(self).stack@.map_values(|q: Pending| q@),
                j + ds@.len() == n,
                v.len() == n,
                v.take(ds@.len() as int) == views(ds@),
                items == pending_of(v, (d + 1) as nat),
                pending_of(v, next_depth as nat) == items,
                self.stack@.map_values(|q: Pending| q@) == old_stack + items.subrange(ds@.len() as int, n as int).reverse(),
            decreases ds@.len(),
        {
            let ghost before = ds@;
            let ghost s0 = self.stack@;
            let item = match ds.pop().unwrap() {
                ConfigDirective::PluginSpec(spec) => Pending::Spec(spec),
                ConfigDirective::Source(p) => Pending::File(p, next_depth),
            };
            proof {
                let m = before.len() - 1;
                assert(v.take(before.len() as int)[m] == views(before)[m]);
                assert(v[m] == before[m]@);
                assert(items[m] == item@);
                assert(v.take(m) =~= views(ds@));
            }
            self.stack.push(item);
            proof {
                let m = before.len() - 1;
                assert(items.subrange(m, n as int).reverse() =~= items.subrange(m + 1, n as int).reverse().push(items[m]));
                assert(self.stack@.map_values(|q: Pending| q@) =~= s0.map_values(|q: Pending| q@).push(item@));
            }
            j = j + 1;
        }
        proof {
            assert(items.subrange(0, n as int) =~= items);
            assert((old_stack + items.reverse()).reverse() =~= items + old_stack.reverse());
        }
        Ok(())
    }

    /// The declarations collected, once the queue is empty.
    pub fn finish(self) -> (r: Vec<Spec>)
        ensures
            r@.map_values(|s: Spec| s@) == self.collected(),
    {
        self.specs
    }
}

/// The leading declarations of a queue are declarations, and a file follows them, if anything does.
proof fn lemma_leading_specs(q: Seq<PendingView>)
    ensures
        0 <= leading_specs(q) <= q.len(),
        forall|k: int| 0 <= k < leading_specs(q) ==> q[k] is Spec,
        leading_specs(q) < q.len() ==> q[leading_specs(q)] is File,
    decreases q.len(),
{
    if q.len() > 0 && q[0] is Spec {
        lemma_leading_specs(q.drop_first());
        assert forall|k: int| 0 <= k < leading_specs(q) implies q[k] is Spec by {
            if k > 0 {
                assert(q.drop_first()[k - 1] == q[k]);
            }
        }
    }
}

} // verus!
