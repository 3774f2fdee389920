//! Running an action over a batch of plugins: which plugins run in parallel,
//! the order in which they are handed out, and the verdict over the results.
//! A failing action never stops the others: every plugin is handed out, and
//! every failure is reported once all have run.

use vstd::prelude::*;

use crate::action_result::ActionResult;
use crate::plugin::{Plugin, PluginView};
use crate::utils::{bool_named, parse_bool};

verus! {

/// The views of a sequence of plugins.
pub open spec fn plugin_views(v: Seq<Plugin>) -> Seq<PluginView> {
    v.map_values(|p: Plugin| p@)
}

/// Whether actions run in parallel, from the value of the option that says so:
/// where it is unset or holds no yes/no value, they do.
pub open spec fn parallel_choice(option: Option<Seq<char>>) -> bool {
    match option {
        Some(v) => match bool_named(v) {
            Some(b) => b,
            None => true,
        },
        None => true,
    }
}

/// Whether actions run in parallel, from the value of the option that says so
/// (see [`parallel_choice`]).
pub fn do_parallel(option: Option<&str>) -> (r: bool)
    ensures
        r == parallel_choice(
            match option {
                Some(v) => Some(v@),
                None => None,
            },
        ),
{
    match option {
        Some(v) => match parse_bool(v) {
            Some(b) => b,
            None => true,
        },
        None => true,
    }
}

/// The plugins that run one after the other, and those that run in parallel,
/// each in the order given: a plugin's own `parallel` attribute overrides `default`.
pub fn split_by_parallel(plugins: Vec<Plugin>, default: bool) -> (r: (Vec<Plugin>, Vec<Plugin>))
    ensures
        plugin_views(r.0@) == plugin_views(plugins@).filter(|p: PluginView| !p.joins_parallel(default)),
        plugin_views(r.1@) == plugin_views(plugins@).filter(|p: PluginView| p.joins_parallel(default)),
{
    let ghost all = plugin_views(plugins@);
    let ghost seq_pred = |p: PluginView| !p.joins_parallel(default);
    let ghost par_pred = |p: PluginView| p.joins_parallel(default);
    let n = plugins.len();
    let mut stack = crate::utils::reversed(plugins);
    let mut sequential: Vec<Plugin> = Vec::new();
    let mut parallel: Vec<Plugin> = Vec::new();
    let mut i: usize = 0;
    while stack.len() > 0
        invariant
            all.len() == n,
            i + stack@.len() == n,
            plugin_views(stack@) == all.subrange(i as int, n as int).reverse(),
            plugin_views(sequential@) == all.take(i as int).filter(seq_pred),
            plugin_views(parallel@) == all.take(i as int).filter(par_pred),
            seq_pred == (|p: PluginView| !p.joins_parallel(default)),
            par_pred == (|p: PluginView| p.joins_parallel(default)),
        decreases stack@.len(),
    {
        let ghost before = stack@;
        let p = stack.pop().unwrap();
        proof {
            reveal(Seq::filter);
            assert(plugin_views(before)[before.len() - 1] == p@);
            assert(all.subrange(i as int, n as int).reverse()[before.len() - 1] == all[i as int]);
            assert(stack@ =~= before.drop_last());
            assert(plugin_views(stack@) =~= plugin_views(before).drop_last());
            assert(plugin_views(stack@) =~= all.subrange(i + 1, n as int).reverse());
            assert(all.take(i + 1).drop_last() =~= all.take(i as int));
            assert(all.take(i + 1).last() == all[i as int]);
        }
        let ghost s0 = sequential@;
        let ghost p0 = parallel@;
        if p.parallel(default) {
            parallel.push(p);
            assert(plugin_views(parallel@) =~= plugin_views(p0).push(all[i as int]));
            assert(plugin_views(sequential@) =~= plugin_views(s0));
        } else {
            sequential.push(p);
            assert(plugin_views(sequential@) =~= plugin_views(s0).push(all[i as int]));
            assert(plugin_views(parallel@) =~= plugin_views(p0));
        }
        i = i + 1;
    }
    assert(all.take(n as int) =~= all);
    (sequential, parallel)
}

/// The positions of the failed results, in order.
pub open spec fn failed_indices(rs: Seq<ActionResult>) -> Seq<int>
    decreases rs.len(),
{
    if rs.len() == 0 {
        Seq::empty()
    } else {
        let prev = failed_indices(rs.drop_last());
        if rs.last().result is Err {
            prev.push(rs.len() - 1)
        } else {
            prev
        }
    }
}

/// How a batch went: how many actions succeeded, and which failed.
#[derive(Debug)]
pub struct BatchReport {
    pub succeeded: usize,
    /// The positions of the failed results, in order.
    pub failed: Vec<usize>,
}

impl BatchReport {
    /// Whether every action of the batch succeeded.
    pub fn all_succeeded(&self) -> (r: bool)
        ensures
            r == (self.failed@.len() == 0),
    {
        self.failed.len() == 0
    }
}

/// Every position in the list of failures is a failed result.
proof fn lemma_failed_indices(rs: Seq<ActionResult>)
    ensures
        failed_indices(rs).len() <= rs.len(),
        forall|k: int| 0 <= k < failed_indices(rs).len() ==> 0 <= #[trigger] failed_indices(rs)[k] < rs.len(),
    decreases rs.len(),
{
    if rs.len() > 0 {
        lemma_failed_indices(rs.drop_last());
    }
}

/// A batch reports every failure and nothing else: a result is among the
/// failures exactly where its action failed, and the batch succeeded exactly
/// where every action did.
pub proof fn failures_are_exactly_the_failed_results(rs: Seq<ActionResult>)
    ensures
        forall|k: int| 0 <= k < rs.len() ==> (failed_indices(rs).contains(k) <==> (#[trigger] rs[k]).result is Err),
        failed_indices(rs).len() == 0 <==> forall|k: int| 0 <= k < rs.len() ==> (#[trigger] rs[k]).result is Ok,
    decreases rs.len(),
{
    lemma_failed_indices(rs);
    if rs.len() > 0 {
        let prev = rs.drop_last();
        failures_are_exactly_the_failed_results(prev);
        lemma_failed_indices(prev);
        let f = failed_indices(rs);
        let fp = failed_indices(prev);
        assert forall|k: int| 0 <= k < rs.len() implies (f.contains(k) <==> (#[trigger] rs[k]).result is Err) by {
            if k < rs.len() - 1 {
                assert(prev[k] == rs[k]);
                if f.contains(k) {
                    let j = choose|j: int| 0 <= j < f.len() && f[j] == k;
                    if rs.last().result is Err && j == f.len() - 1 {
                    } else {
                        assert(fp[j] == k);
                    }
                }
                if fp.contains(k) {
                    let j = choose|j: int| 0 <= j < fp.len() && fp[j] == k;
                    assert(f[j] == k);
                }
            } else {
                if rs.last().result is Err {
                    assert(f[f.len() - 1] == k);
                } else if f.contains(k) {
                    let j = choose|j: int| 0 <= j < f.len() && f[j] == k;
                    assert(fp[j] == k);
                }
            }
        }
        if f.len() == 0 {
            assert forall|k: int| 0 <= k < rs.len() implies (#[trigger] rs[k]).result is Ok by {
                assert(!f.contains(k));
            }
        } else {
            let k = f[0];
            assert(f.contains(k));
            assert(rs[k].result is Err);
        }
    }
}

/// The verdict over the results of a batch.
pub fn summarize(results: &Vec<ActionResult>) -> (r: BatchReport)
    ensures
        r.failed@.len() == failed_indices(results@).len(),
        forall|k: int| 0 <= k < r.failed@.len() ==> r.failed@[k] as int == failed_indices(results@)[k],
        r.succeeded + r.failed@.len() == results@.len(),
{
    let mut failed: Vec<usize> = Vec::new();
    let mut i: usize = 0;
    while i < results.len()
        invariant
            i <= results@.len(),
            failed@.len() == failed_indices(results@.take(i as int)).len(),
            failed@.len() <= i,
            forall|k: int| 0 <= k < failed@.len() ==> failed@[k] as int == failed_indices(results@.take(i as int))[k],
        decreases results@.len() - i,
    {
        assert(results@.take(i + 1).drop_last() =~= results@.take(i as int));
        if results[i].result.is_err() {
            failed.push(i);
        }
        i = i + 1;
    }
    assert(results@.take(i as int) =~= results@);
    BatchReport { succeeded: results.len() - failed.len(), failed }
}

/// A batch of plugins to run an action on, and the results collected so far.
pub struct Batch {
    /// The plugins not handed out yet, the next one last.
    pending: Vec<Plugin>,
    results: Vec<ActionResult>,
}

impl Batch {
    /// The plugins not handed out yet, in the order they will be.
    pub closed spec fn pending(&self) -> Seq<PluginView> {
        plugin_views(self.pending@).reverse()
    }

    /// The results recorded so far.
    pub closed spec fn recorded(&self) -> Seq<ActionResult> {
        self.results@
    }

    /// A batch over `plugins`, in the order given.
    pub fn new(plugins: Vec<Plugin>) -> (r: Batch)
        ensures
            r.pending() == plugin_views(plugins@),
            r.recorded().len() == 0,
    {
        let pending = crate::utils::reversed(plugins);
        let r = Batch { pending, results: Vec::new() };
        assert(plugin_views(r.pending@).reverse() =~= plugin_views(plugins@));
        r
    }

    /// Hands out the next plugin, whatever the results recorded so far; `None`
    /// once every plugin has been handed out.
    pub fn next(&mut self) -> (r: Option<Plugin>)
        ensures
            old(self).pending().len() == 0 ==> r is None && final(self).pending() == old(self).pending(),
            old(self).pending().len() > 0 ==> (r matches Some(p) && p@ == old(self).pending()[0]
                && final(self).pending() == old(self).pending().drop_first()),
            final(self).recorded() == old(self).recorded(),
    {
        let ghost before = self.pending@;
        let r = self.pending.pop();
        proof {
            if before.len() > 0 {
                assert(plugin_views(self.pending@).reverse() =~= plugin_views(before).reverse().drop_first());
            }
        }
        r
    }

    /// Hands out every plugin not handed out yet, in order, to run them together.
    pub fn take_all(&mut self) -> (r: Vec<Plugin>)
        ensures
            plugin_views(r@) == old(self).pending(),
            final(self).pending().len() == 0,
            final(self).recorded() == old(self).recorded(),
    {
        let mut taken: Vec<Plugin> = Vec::new();
        std::mem::swap(&mut taken, &mut self.pending);
        let r = crate::utils::reversed(taken);
        assert(plugin_views(r@) =~= plugin_views(old(self).pending@).reverse());
        assert(plugin_views(self.pending@).reverse() =~= Seq::<PluginView>::empty());
        r
    }

    /// Records the result of an action.
    pub fn record(&mut self, result: ActionResult)
        ensures
            final(self).recorded() == old(self).recorded().push(result),
            final(self).pending() == old(self).pending(),
    {
        self.results.push(result);
    }

    /// The results recorded so far, in the order they were recorded.
    pub fn results(&self) -> (r: &Vec<ActionResult>)
        ensures
            r@ == self.recorded(),
    {
        &self.results
    }

    /// The results, once the batch is over.
    pub fn finish(self) -> (r: Vec<ActionResult>)
        ensures
            r@ == self.recorded(),
    {
        self.results
    }
}

} // verus!
