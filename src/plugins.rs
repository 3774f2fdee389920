//! The plugin registry: the declarations of the legacy `@tpm_plugins` option
//! and of the configuration files, merged into plugins with unique names.

use vstd::prelude::*;

use crate::plugin::{plugin_path, Plugin};
use crate::source_path::join_path;
use crate::plugin_spec::{parse_declaration, spec_result_matches, Spec, SpecError, SpecView};
use crate::text::{chars_of, lemma_run_end, run_end, scan, string_of, CharClass};
use crate::utils::{ensure_unique_by_key, key_fn_ok, keys_of, repeats_earlier};

verus! {

/// The space-separated words of `s` from position `i` on.
pub open spec fn words_from(s: Seq<char>, i: int) -> Seq<Seq<char>>
    decreases s.len() - i,
    via words_from_decreases
{
    if !(0 <= i < s.len()) {
        Seq::empty()
    } else if s[i] == ' ' {
        words_from(s, i + 1)
    } else {
        let e = run_end(s, i, CharClass::Token);
        seq![s.subrange(i, e)] + words_from(s, e)
    }
}

#[via_fn]
proof fn words_from_decreases(s: Seq<char>, i: int) {
    if 0 <= i < s.len() {
        lemma_run_end(s, i, CharClass::Token);
    }
}

/// The declaration that a legacy word stands for: the word, marked `parallel=false`.
pub open spec fn legacy_declaration(w: Seq<char>) -> Seq<char> {
    w + "; parallel=false"@
}

/// Whether a legacy word is a valid declaration.
pub open spec fn legacy_ok(w: Seq<char>) -> bool {
    !w.contains(';') && parse_declaration(legacy_declaration(w)) is Ok
}

/// Whether `e` is the error that the legacy word `w` gives.
pub open spec fn legacy_error(w: Seq<char>, e: SpecError) -> bool {
    if w.contains(';') {
        e matches SpecError::LegacyAttributes(t) && t@ == w
    } else {
        spec_result_matches(legacy_declaration(w), Err(e))
    }
}

/// The declarations of valid legacy words.
pub open spec fn legacy_views(ws: Seq<Seq<char>>) -> Seq<SpecView> {
    ws.map_values(|w: Seq<char>| parse_declaration(legacy_declaration(w))->Ok_0)
}

/// Whether `e` is the error of the first legacy word that is not valid.
pub open spec fn first_legacy_error(ws: Seq<Seq<char>>, e: SpecError) -> bool {
    exists|k: int|
        0 <= k < ws.len() && (forall|j: int| 0 <= j < k ==> legacy_ok(#[trigger] ws[j])) && !legacy_ok(ws[k])
            && #[trigger] legacy_error(ws[k], e)
}

/// The views of a sequence of declarations.
pub open spec fn spec_views(v: Seq<Spec>) -> Seq<SpecView> {
    v.map_values(|s: Spec| s@)
}

/// Parses the value of the legacy `@tpm_plugins` option: a space-separated
/// list of declarations without attributes, each marked `parallel=false`.
pub fn legacy_specs(option: &str) -> (r: Result<Vec<Spec>, SpecError>)
    ensures
        ({
            let ws = words_from(option@, 0);
            &&& r is Ok <==> all_legacy_ok(ws)
            &&& r matches Ok(v) ==> spec_views(v@) == legacy_views(ws)
            &&& r matches Err(e) ==> first_legacy_error(ws, e)
        }),
{
    let chars = chars_of(option);
    let s = chars.as_slice();
    let ghost ws = words_from(s@, 0);
    let mut out: Vec<Spec> = Vec::new();
    let mut i: usize = 0;
    let ghost mut done: Seq<Seq<char>> = Seq::empty();
    while i < s.len()
        invariant
            s@ == option@,
            ws == words_from(s@, 0),
            i <= s@.len(),
            ws == done + words_from(s@, i as int),
            forall|k: int| 0 <= k < done.len() ==> legacy_ok(#[trigger] done[k]),
            spec_views(out@) == legacy_views(done),
            out@.len() == done.len(),
        decreases s@.len() - i,
    {
        if s[i] == ' ' {
            i = i + 1;
        } else {
            let e = scan(s, i, CharClass::Token);
            proof {
                lemma_run_end(s@, i as int, CharClass::Token);
            }
            let w = string_of(s, i, e);
            let ghost prev = out@;
            assert(ws == done.push(w@) + words_from(s@, e as int));
            match Spec::try_from_legacy(w.as_str()) {
                Ok(spec) => {
                    proof {
                        assert(!w@.contains(';'));
                        assert(legacy_declaration(w@).len() > 0);
                        assert(parse_declaration(legacy_declaration(w@)) == Ok::<SpecView, int>(spec@));
                    }
                    out.push(spec);
                },
                Err(err) => {
                    proof {
                        let k = done.len() as int;
                        assert(ws[k] == w@);
                        assert(legacy_error(ws[k], err));
                        assert(forall|j: int| 0 <= j < k ==> ws[j] == done[j]);
                    }
                    return Err(err);
                },
            }
            proof {
                let next = done.push(w@);
                assert(legacy_ok(w@));
                assert forall|j: int| 0 <= j < next.len() implies spec_views(out@)[j] == legacy_views(next)[j] by {
                    if j < done.len() {
                        assert(spec_views(prev)[j] == legacy_views(done)[j]);
                        assert(out@[j] == prev[j]);
                    }
                }
                assert(spec_views(out@) =~= legacy_views(next));
                done = next;
            }
            i = e;
        }
    }
    assert(ws =~= done);
    Ok(out)
}

/// Why the plugins could not be listed.
#[derive(Debug)]
pub enum RegistryError {
    /// A declaration was refused.
    InvalidSpec(SpecError),
    /// Two plugins have this effective name.
    DuplicateName(String),
}

/// The effective names of a sequence of declarations.
pub open spec fn names_of(specs: Seq<SpecView>) -> Seq<Seq<char>> {
    specs.map_values(|s: SpecView| s.effective_name())
}

/// The words of the legacy option value, if it is set.
pub open spec fn legacy_words(legacy_option: Option<&str>) -> Seq<Seq<char>> {
    match legacy_option {
        Some(o) => words_from(o@, 0),
        None => Seq::empty(),
    }
}

/// Whether every legacy word is a valid declaration.
pub open spec fn all_legacy_ok(ws: Seq<Seq<char>>) -> bool {
    forall|k: int| 0 <= k < ws.len() ==> legacy_ok(#[trigger] ws[k])
}

/// The declarations of the registry: the legacy ones, then the declared ones.
pub open spec fn registry_specs(legacy_option: Option<&str>, declared: Seq<Spec>) -> Seq<SpecView> {
    legacy_views(legacy_words(legacy_option)) + spec_views(declared)
}

/// Whether no two declarations share an effective name.
pub open spec fn names_unique(specs: Seq<SpecView>) -> bool {
    forall|i: int| 0 <= i < specs.len() ==> !repeats_earlier(names_of(specs), i)
}

/// Whether `n` is the first effective name that an earlier declaration has too.
pub open spec fn first_duplicate(specs: Seq<SpecView>, n: Seq<char>) -> bool {
    exists|i: int|
        0 <= i < specs.len() && repeats_earlier(names_of(specs), i) && names_of(specs)[i] == n
            && forall|j: int| 0 <= j < i ==> !repeats_earlier(names_of(specs), j)
}

/// Whether `v` holds one plugin for each declaration, in order, installed under `plugins_dir`.
pub open spec fn plugins_of(v: Seq<Plugin>, specs: Seq<SpecView>, plugins_dir: Seq<char>) -> bool {
    &&& v.len() == specs.len()
    &&& forall|i: int|
        0 <= i < specs.len() ==> (#[trigger] v[i])@.spec == specs[i] && v[i]@.path == plugin_path(
            plugins_dir,
            specs[i].effective_name(),
        )
}

/// Lists the plugins: those of the legacy option value (if any), then the
/// declared ones, each installed under `plugins_dir`. Fails where a legacy
/// declaration is refused, and where two plugins share an effective name.
pub fn get_plugins(legacy_option: Option<&str>, declared: Vec<Spec>, plugins_dir: &str) -> (r: Result<Vec<Plugin>, RegistryError>)
    ensures
        !all_legacy_ok(legacy_words(legacy_option)) ==> (r matches Err(RegistryError::InvalidSpec(e))
            && first_legacy_error(legacy_words(legacy_option), e)),
        all_legacy_ok(legacy_words(legacy_option)) ==> (r is Ok <==> names_unique(
            registry_specs(legacy_option, declared@),
        )),
        r matches Ok(v) ==> plugins_of(v@, registry_specs(legacy_option, declared@), plugins_dir@),
        all_legacy_ok(legacy_words(legacy_option)) ==> (r matches Err(e) ==> (e matches RegistryError::DuplicateName(n)
            && first_duplicate(registry_specs(legacy_option, declared@), n@))),
{
    let ghost ws = legacy_words(legacy_option);
    let legacy = match legacy_option {
        Some(o) => match legacy_specs(o) {
            Ok(v) => v,
            Err(e) => {
                return Err(RegistryError::InvalidSpec(e));
            },
        },
        None => Vec::new(),
    };
    assert(spec_views(legacy@) == legacy_views(ws)) by {
        if legacy_option is None {
            assert(spec_views(legacy@) =~= legacy_views(ws));
        }
    }
    let ghost specs = legacy_views(ws) + spec_views(declared@);
    let mut plugins: Vec<Plugin> = Vec::new();
    let mut all = legacy;
    let mut rest = declared;
    let ghost n_legacy = all@.len();
    all.append(&mut rest);
    assert(spec_views(all@) =~= specs);
    let mut k: usize = 0;
    let total = all.len();
    let mut stack = crate::utils::reversed(all);
    let ghost whole = stack@.reverse();
    assert(whole =~= all@);
    while stack.len() > 0
        invariant
            stack@ == whole.subrange(k as int, whole.len() as int).reverse(),
            k + stack@.len() == whole.len(),
            whole.len() == total,
            spec_views(whole) == specs,
            plugins@.len() == k,
            forall|i: int| 0 <= i < k ==> (#[trigger] plugins@[i])@.spec == specs[i] && plugins@[i]@.path
                == plugin_path(plugins_dir@, specs[i].effective_name()),
        decreases stack@.len(),
    {
        let spec = stack.pop().unwrap();
        assert(spec@ == specs[k as int]);
        assert(stack@ =~= whole.subrange(k + 1, whole.len() as int).reverse());
        plugins.push(Plugin::new(spec, plugins_dir));
        k = k + 1;
    }
    let ghost kf = |p: Plugin| p@.name();
    assert(keys_of(kf, plugins@) =~= names_of(specs));
    let name_of = |p: &Plugin| -> (r: String)
        ensures
            r@ == p@.name(),
        { p.name().clone() };
    assert(key_fn_ok(name_of, kf, plugins@));
    match ensure_unique_by_key(plugins.as_slice(), name_of, Ghost(kf)) {
        Ok(()) => Ok(plugins),
        Err(p) => {
            let n = p.name().clone();
            proof {
                let i = choose|i: int|
                    0 <= i < plugins@.len() && p == &plugins@[i] && repeats_earlier(keys_of(kf, plugins@), i)
                        && forall|j: int| 0 <= j < i ==> !repeats_earlier(keys_of(kf, plugins@), j);
                assert(names_of(specs)[i] == n@);
            }
            Err(RegistryError::DuplicateName(n))
        },
    }
}

/// Joining a name onto a directory tells names apart.
proof fn lemma_join_injective(dir: Seq<char>, x: Seq<char>, y: Seq<char>)
    requires
        join_path(dir, x) == join_path(dir, y),
    ensures
        x == y,
{
    let jx = join_path(dir, x);
    if x.len() > 0 && y.len() > 0 && dir.len() > 0 {
        let p = if dir[dir.len() - 1] == '/' {
            dir
        } else {
            dir + seq!['/']
        };
        assert(jx == p + x);
        assert(join_path(dir, y) == p + y);
        assert(x =~= jx.subrange(p.len() as int, jx.len() as int));
        assert(y =~= jx.subrange(p.len() as int, jx.len() as int));
    }
}

/// Plugins with unique names have unique paths: each action works in a
/// directory of its own.
pub proof fn unique_names_give_unique_paths(v: Seq<Plugin>, specs: Seq<SpecView>, plugins_dir: Seq<char>)
    requires
        plugins_of(v, specs, plugins_dir),
        names_unique(specs),
    ensures
        forall|i: int, j: int| 0 <= i < j < v.len() ==> (#[trigger] v[i])@.path != (#[trigger] v[j])@.path,
{
    assert forall|i: int, j: int| 0 <= i < j < v.len() implies (#[trigger] v[i])@.path != (#[trigger] v[j])@.path by {
        let ns = names_of(specs);
        assert(!repeats_earlier(ns, j));
        assert(ns[i] != ns[j]);
        if v[i]@.path == v[j]@.path {
            lemma_join_injective(plugins_dir, specs[i].effective_name(), specs[j].effective_name());
        }
    }
}

} // verus!
