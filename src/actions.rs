//! The decisions of the plugin actions: which plugins to install and the
//! command that clones one, the commands that update one, the directories
//! that `clean` removes, and the init scripts that `load` runs.

use vstd::prelude::*;

use crate::orchestrator::plugin_views;
use crate::plugin::{Plugin, PluginView};
use crate::repo_url::{parsed_url, InvalidUrl};
use crate::source_path::{join, join_path};
use crate::text::{chars_of, find, lemma_find_none_from, matches_at, push_str, str_eq};
use crate::utils::text_views;

verus! {

/// Why an action could not run on a plugin.
#[derive(Debug)]
pub enum ActionError {
    /// The plugin with this name is not installed.
    NotInstalled(String),
    /// No plugin has this name.
    UnknownPlugin(String),
    /// The repository reference does not give a valid URL.
    InvalidUrl(InvalidUrl),
}

// ---------------------------------------------------------------------------
// install

/// The positions of the plugins that are not installed, in order.
pub open spec fn install_plan(installed: Seq<bool>) -> Seq<int>
    decreases installed.len(),
{
    if installed.len() == 0 {
        Seq::empty()
    } else {
        let prev = install_plan(installed.drop_last());
        if installed.last() {
            prev
        } else {
            prev.push(installed.len() - 1)
        }
    }
}

/// The installation state after the plugins at the positions `done` have been installed.
pub open spec fn mark_installed(installed: Seq<bool>, done: Seq<int>) -> Seq<bool> {
    Seq::new(installed.len(), |i: int| installed[i] || done.contains(i))
}

/// A position is planned exactly where its plugin is not installed.
pub proof fn lemma_install_plan(installed: Seq<bool>)
    ensures
        forall|i: int| 0 <= i < installed.len() ==> (install_plan(installed).contains(i) <==> !installed[i]),
        forall|k: int| 0 <= k < install_plan(installed).len() ==> 0 <= #[trigger] install_plan(installed)[k] < installed.len(),
    decreases installed.len(),
{
    if installed.len() > 0 {
        let prev = installed.drop_last();
        lemma_install_plan(prev);
        let plan = install_plan(installed);
        assert forall|i: int| 0 <= i < installed.len() implies (plan.contains(i) <==> !installed[i]) by {
            if i < installed.len() - 1 {
                assert(prev[i] == installed[i]);
                if plan.contains(i) {
                    let k = choose|k: int| 0 <= k < plan.len() && plan[k] == i;
                    if !installed.last() && k == plan.len() - 1 {
                    } else {
                        assert(install_plan(prev)[k] == i);
                    }
                }
                if install_plan(prev).contains(i) {
                    let k = choose|k: int| 0 <= k < install_plan(prev).len() && install_plan(prev)[k] == i;
                    assert(plan[k] == i);
                }
            } else {
                if !installed.last() {
                    assert(plan[plan.len() - 1] == i);
                } else if plan.contains(i) {
                    let k = choose|k: int| 0 <= k < plan.len() && plan[k] == i;
                    assert(install_plan(prev)[k] == i);
                }
            }
        }
    }
}

/// Installing twice installs nothing the second time: once every plugin that
/// the first install planned is installed, the plan is empty.
pub proof fn install_is_idempotent(installed: Seq<bool>)
    ensures
        install_plan(mark_installed(installed, install_plan(installed))).len() == 0,
{
    let after = mark_installed(installed, install_plan(installed));
    lemma_install_plan(installed);
    lemma_install_plan(after);
    let plan = install_plan(after);
    if plan.len() > 0 {
        let i = plan[0];
        assert(plan.contains(i));
        assert(!after[i]);
    }
}

/// The plugins that an install works on: those that are not installed, in order.
/// `installed` tells, for each plugin, whether its path exists.
pub fn plugins_to_install(plugins: Vec<Plugin>, installed: &Vec<bool>) -> (r: Vec<Plugin>)
    requires
        installed@.len() == plugins@.len(),
    ensures
        plugin_views(r@) == install_plan(installed@).map_values(|i: int| plugin_views(plugins@)[i]),
{
    let ghost all = plugin_views(plugins@);
    let n = plugins.len();
    let mut stack = crate::utils::reversed(plugins);
    let mut out: Vec<Plugin> = Vec::new();
    let mut i: usize = 0;
    while stack.len() > 0
        invariant
            all.len() == n,
            installed@.len() == n,
            i + stack@.len() == n,
            plugin_views(stack@) == all.subrange(i as int, n as int).reverse(),
            plugin_views(out@) == install_plan(installed@.take(i as int)).map_values(|k: int| all[k]),
        decreases stack@.len(),
    {
        let ghost before = stack@;
        let p = stack.pop().unwrap();
        proof {
            assert(plugin_views(before)[before.len() - 1] == p@);
            assert(all.subrange(i as int, n as int).reverse()[before.len() - 1] == all[i as int]);
            assert(stack@ =~= before.drop_last());
            assert(plugin_views(stack@) =~= plugin_views(before).drop_last());
            assert(plugin_views(stack@) =~= all.subrange(i + 1, n as int).reverse());
            assert(installed@.take(i + 1).drop_last() =~= installed@.take(i as int));
        }
        let ghost o0 = out@;
        if !installed[i] {
            out.push(p);
            assert(plugin_views(out@) =~= plugin_views(o0).push(all[i as int]));
        }
        assert(plugin_views(out@) =~= install_plan(installed@.take(i + 1)).map_values(|k: int| all[k]));
        i = i + 1;
    }
    assert(installed@.take(n as int) =~= installed@);
    out
}

/// The command that clones a plugin: `git clone --single-branch --recursive`,
/// `--branch <name>` where the declaration names a branch, then the URL and the path.
pub open spec fn clone_args(p: PluginView, url: Seq<char>) -> Seq<Seq<char>> {
    let head = seq!["git"@, "clone"@, "--single-branch"@, "--recursive"@];
    let branch = match p.spec.branch {
        Some(b) => seq!["--branch"@, b],
        None => Seq::empty(),
    };
    head + branch + seq![url, p.path]
}

/// What installing one plugin takes.
#[derive(Debug)]
pub enum InstallStep {
    /// Nothing: the plugin is installed already.
    Skipped,
    /// Running this command, once the plugin root exists.
    Clone(Vec<String>),
}

/// What installing `plugin` takes, `installed` telling whether its path exists.
pub fn install_step(plugin: &Plugin, installed: bool) -> (r: Result<InstallStep, ActionError>)
    ensures
        installed ==> r matches Ok(InstallStep::Skipped),
        !installed && parsed_url(plugin@.spec.url.fetch_text()) is None ==> (r matches Err(
            ActionError::InvalidUrl(e),
        ) && e.text@ == plugin@.spec.url.fetch_text()),
        !installed && parsed_url(plugin@.spec.url.fetch_text()) is Some ==> (r matches Ok(
            InstallStep::Clone(args),
        ) && text_views(args@) == clone_args(
            plugin@,
            parsed_url(plugin@.spec.url.fetch_text())->Some_0,
        )),
{
    if installed {
        return Ok(InstallStep::Skipped);
    }
    let url = match plugin.url() {
        Ok(u) => u,
        Err(e) => {
            return Err(ActionError::InvalidUrl(e));
        },
    };
    let mut args: Vec<String> = Vec::new();
    args.push(text_of("git"));
    args.push(text_of("clone"));
    args.push(text_of("--single-branch"));
    args.push(text_of("--recursive"));
    match plugin.branch() {
        Some(b) => {
            args.push(text_of("--branch"));
            args.push(text_of(b));
        },
        None => {},
    }
    args.push(url);
    args.push(plugin.path().clone());
    assert(text_views(args@) =~= clone_args(plugin@, parsed_url(plugin@.spec.url.fetch_text())->Some_0));
    Ok(InstallStep::Clone(args))
}

/// A new string holding `t`.
fn text_of(t: &str) -> (r: String)
    ensures
        r@ == t@,
{
    let mut r = String::new();
    push_str(&mut r, t);
    assert(Seq::<char>::empty() + t@ =~= t@);
    r
}

// ---------------------------------------------------------------------------
// update

/// The commands that update an installed plugin, run in its directory: a
/// rebasing pull, then a recursive update of its submodules.
pub open spec fn update_args() -> Seq<Seq<Seq<char>>> {
    seq![
        seq!["git"@, "pull"@, "--rebase"@],
        seq!["git"@, "submodule"@, "update"@, "--init"@, "--recursive"@],
    ]
}

/// The commands that update `plugin`, run in its directory; `installed` tells
/// whether its path exists. An update of a plugin that is not installed fails.
pub fn update_commands(plugin: &Plugin, installed: bool) -> (r: Result<Vec<Vec<String>>, ActionError>)
    ensures
        !installed ==> (r matches Err(ActionError::NotInstalled(n)) && n@ == plugin@.name()),
        installed ==> (r matches Ok(cmds) && cmds@.len() == update_args().len() && forall|k: int|
            0 <= k < cmds@.len() ==> text_views((#[trigger] cmds@[k])@) == update_args()[k]),
{
    if !installed {
        return Err(ActionError::NotInstalled(plugin.name().clone()));
    }
    let mut pull: Vec<String> = Vec::new();
    pull.push(text_of("git"));
    pull.push(text_of("pull"));
    pull.push(text_of("--rebase"));
    let mut sub: Vec<String> = Vec::new();
    sub.push(text_of("git"));
    sub.push(text_of("submodule"));
    sub.push(text_of("update"));
    sub.push(text_of("--init"));
    sub.push(text_of("--recursive"));
    assert(text_views(pull@) =~= update_args()[0]);
    assert(text_views(sub@) =~= update_args()[1]);
    let mut cmds: Vec<Vec<String>> = Vec::new();
    cmds.push(pull);
    cmds.push(sub);
    Ok(cmds)
}

/// The positions of the plugins that are installed, in order.
pub open spec fn installed_positions(installed: Seq<bool>) -> Seq<int> {
    install_plan(negated(installed))
}

/// The plugins that `update --all` works on: the installed ones, in order.
pub fn plugins_to_update(plugins: Vec<Plugin>, installed: &Vec<bool>) -> (r: Vec<Plugin>)
    requires
        installed@.len() == plugins@.len(),
    ensures
        plugin_views(r@) == installed_positions(installed@).map_values(|i: int| plugin_views(plugins@)[i]),
{
    let mut flipped: Vec<bool> = Vec::new();
    let mut i: usize = 0;
    while i < installed.len()
        invariant
            i <= installed@.len(),
            flipped@ == negated(installed@.take(i as int)),
        decreases installed@.len() - i,
    {
        flipped.push(!installed[i]);
        assert(flipped@ =~= negated(installed@.take(i + 1)));
        i = i + 1;
    }
    assert(installed@.take(i as int) =~= installed@);
    plugins_to_install(plugins, &flipped)
}

/// Each flag turned over.
pub open spec fn negated(flags: Seq<bool>) -> Seq<bool> {
    flags.map_values(|b: bool| !b)
}

/// Whether the plugin list holds a plugin named `n`.
pub open spec fn has_name(plugins: Seq<PluginView>, n: Seq<char>) -> bool {
    exists|i: int| 0 <= i < plugins.len() && plugins[i].name() == n
}

/// The position of a plugin named `name`, if there is one.
fn position_named(pool: &Vec<Plugin>, name: &String) -> (r: Option<usize>)
    ensures
        r matches Some(j) ==> j < pool@.len() && pool@[j as int]@.name() == name@,
        r is None ==> forall|m: int| 0 <= m < pool@.len() ==> (#[trigger] pool@[m])@.name() != name@,
{
    let mut j: usize = 0;
    while j < pool.len()
        invariant
            j <= pool@.len(),
            forall|m: int| 0 <= m < j ==> (#[trigger] pool@[m])@.name() != name@,
        decreases pool@.len() - j,
    {
        if str_eq(pool[j].name().as_str(), name.as_str()) {
            return Some(j);
        }
        j = j + 1;
    }
    None
}

/// Whether one of the first `k` names is `n`.
pub open spec fn named_before(names: Seq<String>, k: int, n: Seq<char>) -> bool {
    exists|m: int| 0 <= m < k && names[m]@ == n
}

/// Whether the pool holds a plugin with the view `v`.
pub open spec fn in_pool(pool: Seq<Plugin>, v: PluginView) -> bool {
    exists|j: int| 0 <= j < pool.len() && pool[j]@ == v
}

/// The plugins that `update <names...>` works on, one for each name, in the
/// order of the names. A name that no plugin has, or that is given twice, fails.
pub fn select_by_names(plugins: Vec<Plugin>, names: &Vec<String>) -> (r: Result<Vec<Plugin>, ActionError>)
    ensures
        r matches Ok(v) ==> v@.len() == names@.len() && forall|k: int|
            0 <= k < v@.len() ==> (#[trigger] v@[k])@.name() == names@[k]@ && plugin_views(plugins@).contains(
                v@[k]@,
            ),
        r matches Err(e) ==> (e matches ActionError::UnknownPlugin(n) && exists|k: int|
            0 <= k < names@.len() && (#[trigger] names@[k])@ == n@ && (!has_name(plugin_views(plugins@), n@)
                || named_before(names@, k, n@))),
        (forall|k: int| 0 <= k < names@.len() ==> has_name(plugin_views(plugins@), #[trigger] names@[k]@))
            && (forall|j: int, k: int| 0 <= j < k < names@.len() ==> names@[j]@ != names@[k]@) ==> r is Ok,
{
    let ghost orig = plugin_views(plugins@);
    let mut pool = plugins;
    let mut out: Vec<Plugin> = Vec::new();
    let mut k: usize = 0;
    assert forall|j: int| 0 <= j < pool@.len() implies orig.contains(#[trigger] pool@[j]@) by {
        assert(orig[j] == pool@[j]@);
    }
    assert forall|i: int| 0 <= i < orig.len() && !named_before(names@, 0, #[trigger] orig[i].name()) implies in_pool(pool@, orig[i]) by {
        assert(pool@[i]@ == orig[i]);
    }
    while k < names.len()
        invariant
            k <= names@.len(),
            orig == plugin_views(plugins@),
            out@.len() == k,
            forall|m: int| 0 <= m < k ==> (#[trigger] out@[m])@.name() == names@[m]@ && orig.contains(out@[m]@),
            forall|j: int| 0 <= j < pool@.len() ==> orig.contains(#[trigger] pool@[j]@),
            forall|i: int| 0 <= i < orig.len() && !named_before(names@, k as int, #[trigger] orig[i].name()) ==> in_pool(pool@, orig[i]),
        decreases names@.len() - k,
    {
        let name = &names[k];
        let found = position_named(&pool, name);
        if found.is_none() {
            let n = name.clone();
            proof {
                assert(names@[k as int]@ == n@);
                if has_name(orig, n@) && !named_before(names@, k as int, n@) {
                    let i = choose|i: int| 0 <= i < orig.len() && orig[i].name() == n@;
                    assert(!named_before(names@, k as int, orig[i].name()));
                    assert(in_pool(pool@, orig[i]));
                    let jj = choose|jj: int| 0 <= jj < pool@.len() && pool@[jj]@ == orig[i];
                    assert(pool@[jj]@.name() == n@);
                }
                if named_before(names@, k as int, n@) {
                    let m = choose|m: int| 0 <= m < k && names@[m]@ == n@;
                    assert(names@[m]@ == names@[k as int]@);
                }
                assert(!has_name(orig, n@) || named_before(names@, k as int, n@));
                assert(0 <= k < names@.len() && names@[k as int]@ == n@ && (!has_name(plugin_views(plugins@), n@)
                    || named_before(names@, k as int, n@)));
            }
            return Err(ActionError::UnknownPlugin(n));
        }
        let j = found.unwrap();
        let ghost before = pool@;
        let p = pool.remove(j);
        proof {
            assert forall|i: int| 0 <= i < orig.len() && !named_before(names@, k + 1, #[trigger] orig[i].name())
                implies in_pool(pool@, orig[i]) by {
                assert(names@[k as int]@ != orig[i].name());
                if named_before(names@, k as int, orig[i].name()) {
                    let m = choose|m: int| 0 <= m < k && names@[m]@ == orig[i].name();
                    assert(0 <= m < k + 1 && names@[m]@ == orig[i].name());
                }
                assert(in_pool(before, orig[i]));
                let jj = choose|jj: int| 0 <= jj < before.len() && before[jj]@ == orig[i];
                if jj < j {
                    assert(pool@[jj] == before[jj]);
                } else {
                    assert(jj != j);
                    assert(pool@[jj - 1] == before[jj]);
                }
            }
            assert forall|m: int| 0 <= m < pool@.len() implies orig.contains(#[trigger] pool@[m]@) by {
                if m < j {
                    assert(pool@[m] == before[m]);
                } else {
                    assert(pool@[m] == before[m + 1]);
                }
            }
            assert(orig.contains(before[j as int]@));
        }
        out.push(p);
        k = k + 1;
    }
    Ok(out)
}

// ---------------------------------------------------------------------------
// clean

/// An entry of the plugin root directory.
#[derive(Debug)]
pub struct DirEntry {
    /// The entry's file name.
    pub name: String,
    pub is_dir: bool,
}

/// Whether a file name names an entry of its directory itself: not empty, no
/// `/`, and neither `.` nor `..`.
pub open spec fn is_plain_name(n: Seq<char>) -> bool {
    n.len() > 0 && !n.contains('/') && n != "."@ && n != ".."@
}

/// Whether `clean` removes the entry: a directory of the plugin root, by a
/// plain name, whose path is no plugin's path.
pub open spec fn is_stale(e: DirEntry, plugins_dir: Seq<char>, paths: Seq<Seq<char>>) -> bool {
    e.is_dir && is_plain_name(e.name@) && !paths.contains(join_path(plugins_dir, e.name@))
}

/// The paths that `clean` removes, in the order of the entries.
pub open spec fn stale_of(entries: Seq<DirEntry>, plugins_dir: Seq<char>, paths: Seq<Seq<char>>) -> Seq<Seq<char>>
    decreases entries.len(),
{
    if entries.len() == 0 {
        Seq::empty()
    } else {
        let prev = stale_of(entries.drop_last(), plugins_dir, paths);
        if is_stale(entries.last(), plugins_dir, paths) {
            prev.push(join_path(plugins_dir, entries.last().name@))
        } else {
            prev
        }
    }
}

/// The paths of the plugins.
pub open spec fn paths_of(plugins: Seq<Plugin>) -> Seq<Seq<char>> {
    plugins.map_values(|p: Plugin| p@.path)
}

/// The directories that `clean` removes from the plugin root `plugins_dir`,
/// whose entries are `entries`: those that belong to no declared plugin.
/// Nothing outside the plugin root is ever among them.
pub fn stale_paths(plugins: &Vec<Plugin>, plugins_dir: &str, entries: &Vec<DirEntry>) -> (r: Vec<String>)
    ensures
        text_views(r@) == stale_of(entries@, plugins_dir@, paths_of(plugins@)),
{
    let ghost paths = paths_of(plugins@);
    let mut out: Vec<String> = Vec::new();
    let mut i: usize = 0;
    while i < entries.len()
        invariant
            i <= entries@.len(),
            paths == paths_of(plugins@),
            text_views(out@) == stale_of(entries@.take(i as int), plugins_dir@, paths),
        decreases entries@.len() - i,
    {
        assert(entries@.take(i + 1).drop_last() =~= entries@.take(i as int));
        let e = &entries[i];
        let ghost o0 = out@;
        if e.is_dir && plain_name(e.name.as_str()) {
            let path = join(plugins_dir, e.name.as_str());
            if !path_taken(plugins, &path) {
                out.push(path);
                assert(text_views(out@) =~= text_views(o0).push(path@));
            }
        }
        i = i + 1;
    }
    assert(entries@.take(i as int) =~= entries@);
    out
}

/// Whether some plugin is installed at `path`.
fn path_taken(plugins: &Vec<Plugin>, path: &String) -> (r: bool)
    ensures
        r == paths_of(plugins@).contains(path@),
{
    let ghost paths = paths_of(plugins@);
    let mut j: usize = 0;
    while j < plugins.len()
        invariant
            j <= plugins@.len(),
            paths == paths_of(plugins@),
            forall|m: int| 0 <= m < j ==> paths[m] != path@,
        decreases plugins@.len() - j,
    {
        if str_eq(plugins[j].path().as_str(), path.as_str()) {
            assert(paths[j as int] == path@);
            return true;
        }
        j = j + 1;
    }
    false
}

/// Whether a file name names an entry of its directory itself (see [`is_plain_name`]).
fn plain_name(n: &str) -> (r: bool)
    ensures
        r == is_plain_name(n@),
{
    let v = chars_of(n);
    if v.len() == 0 || str_eq(n, ".") || str_eq(n, "..") {
        return false;
    }
    match find(v.as_slice(), 0, '/') {
        Some(_) => false,
        None => {
            proof {
                lemma_find_none_from(v@, 0, '/');
            }
            true
        },
    }
}

// ---------------------------------------------------------------------------
// load

/// A file found in a plugin's directory.
#[derive(Debug)]
pub struct FileEntry {
    pub path: String,
    pub is_file: bool,
    pub is_executable: bool,
}

/// The pattern of the init scripts of a plugin: the files of its directory whose name ends in `.tmux`.
pub fn init_script_pattern(plugin: &Plugin) -> (r: String)
    ensures
        r@ == plugin@.path + "/*.tmux"@,
{
    let mut r = text_of(plugin.path().as_str());
    push_str(&mut r, "/*.tmux");
    r
}

/// Whether `load` runs the file: a regular, executable file whose name ends in `.tmux`.
pub open spec fn is_init_script(f: FileEntry) -> bool {
    f.is_file && f.is_executable && f.path@.len() >= 5 && f.path@.subrange(f.path@.len() - 5, f.path@.len() as int) == ".tmux"@
}

/// The init scripts among the files found, in order.
pub open spec fn init_scripts_of(files: Seq<FileEntry>) -> Seq<Seq<char>>
    decreases files.len(),
{
    if files.len() == 0 {
        Seq::empty()
    } else {
        let prev = init_scripts_of(files.drop_last());
        if is_init_script(files.last()) {
            prev.push(files.last().path@)
        } else {
            prev
        }
    }
}

/// The init scripts that `load` runs for a plugin, among the files found in its directory.
pub fn init_scripts(files: &Vec<FileEntry>) -> (r: Vec<String>)
    ensures
        text_views(r@) == init_scripts_of(files@),
{
    proof {
        reveal_strlit(".tmux");
    }
    let mut out: Vec<String> = Vec::new();
    let mut i: usize = 0;
    while i < files.len()
        invariant
            i <= files@.len(),
            text_views(out@) == init_scripts_of(files@.take(i as int)),
            ".tmux"@.len() == 5,
        decreases files@.len() - i,
    {
        assert(files@.take(i + 1).drop_last() =~= files@.take(i as int));
        let f = &files[i];
        let ghost o0 = out@;
        if f.is_file && f.is_executable {
            let v = chars_of(f.path.as_str());
            if v.len() >= 5 && matches_at(v.as_slice(), v.len() - 5, ".tmux") {
                out.push(f.path.clone());
                assert(text_views(out@) =~= text_views(o0).push(f.path@));
            }
        }
        i = i + 1;
    }
    assert(files@.take(i as int) =~= files@);
    out
}

} // verus!
