//! The tmux key bindings that run the plugin manager in a popup.

use vstd::prelude::*;

use crate::plugin_spec::opt_view;
use crate::text::push_str;

verus! {

/// The popup script of the install key.
pub const INSTALL_SCRIPT: &'static str = "ahiru-tpm install --load; echo $'\\n--- Done. Press ESC to close this popup. ---'";

/// The popup script of the update key.
pub const UPDATE_SCRIPT: &'static str = "ahiru-tpm update --all --load; echo $'\\n--- Done. Press ESC to close this popup. ---'";

/// The popup script of the clean key.
pub const CLEAN_SCRIPT: &'static str = "ahiru-tpm clean; echo $'\\n--- Done. Press ESC to close this popup. ---'";

/// The popup script of the install key of the older plugin manager.
pub const INSTALL_COMPAT_SCRIPT: &'static str = "echo '  /!\\   This keymap is deprecated. Please use Prefix+<Alt+I> instead   /!\\'; echo ''; ahiru-tpm install; echo $'\\n--- Done. Press ESC to close this popup. ---'";

/// The popup script of the update key of the older plugin manager.
pub const UPDATE_COMPAT_SCRIPT: &'static str = "echo '  /!\\   This keymap is deprecated. Please use Prefix+<Alt+U> instead   /!\\'; echo ''; ahiru-tpm update --all; echo $'\\n--- Done. Press ESC to close this popup. ---'";

/// The popup script of the clean key of the older plugin manager.
pub const CLEAN_COMPAT_SCRIPT: &'static str = "echo '  /!\\   This keymap is deprecated. Please use Prefix+<Alt+C> instead   /!\\'; echo ''; ahiru-tpm clean; echo $'\\n--- Done. Press ESC to close this popup. ---'";

/// The keys that the user chose, where they chose one.
#[derive(Debug)]
pub struct KeyBindings {
    pub install_key: Option<String>,
    pub update_key: Option<String>,
    pub clean_key: Option<String>,
}

/// A chosen key, if any: the first of the two options that is set.
pub open spec fn chosen(first: Option<String>, second: Option<String>) -> Option<Seq<char>> {
    match first {
        Some(k) => Some(k@),
        None => opt_view(second),
    }
}

/// The command that binds `key` to a popup running `script`.
pub open spec fn popup(key: Seq<char>, script: Seq<char>) -> Seq<Seq<char>> {
    seq!["tmux"@, "bind-key"@, key, "display-popup"@, script]
}

/// The binding of an action: `key` where chosen, else `default`.
pub open spec fn key_or(key: Option<Seq<char>>, default: Seq<char>) -> Seq<char> {
    match key {
        Some(k) => k,
        None => default,
    }
}

/// The commands that set up the bindings: first, for each action whose key
/// was not chosen, the binding of the older plugin manager; then the binding
/// of each action, to the chosen key or its default.
pub open spec fn binding_commands(
    install: Option<Seq<char>>,
    update: Option<Seq<char>>,
    clean: Option<Seq<char>>,
) -> Seq<Seq<Seq<char>>> {
    let compat_install = if install is None {
        seq![popup("I"@, INSTALL_COMPAT_SCRIPT@)]
    } else {
        Seq::empty()
    };
    let compat_update = if update is None {
        seq![popup("U"@, UPDATE_COMPAT_SCRIPT@)]
    } else {
        Seq::empty()
    };
    let compat_clean = if clean is None {
        seq![popup("M-u"@, CLEAN_COMPAT_SCRIPT@)]
    } else {
        Seq::empty()
    };
    compat_install + compat_update + compat_clean + seq![
        popup(key_or(install, "M-I"@), INSTALL_SCRIPT@),
        popup(key_or(update, "M-U"@), UPDATE_SCRIPT@),
        popup(key_or(clean, "M-C"@), CLEAN_SCRIPT@),
    ]
}

/// A new string holding `t`.
fn owned(t: &str) -> (r: String)
    ensures
        r@ == t@,
{
    let mut r = String::new();
    push_str(&mut r, t);
    assert(Seq::<char>::empty() + t@ =~= t@);
    r
}

/// The command that binds `key` to a popup running `script`.
fn popup_command(key: &str, script: &str) -> (r: Vec<String>)
    ensures
        r@.map_values(|s: String| s@) == popup(key@, script@),
{
    let mut r: Vec<String> = Vec::new();
    r.push(owned("tmux"));
    r.push(owned("bind-key"));
    r.push(owned(key));
    r.push(owned("display-popup"));
    r.push(owned(script));
    assert(r@.map_values(|s: String| s@) =~= popup(key@, script@));
    r
}

/// The first of two options that is set.
fn first_set(first: Option<String>, second: Option<String>) -> (r: Option<String>)
    ensures
        opt_view(r) == chosen(first, second),
{
    match first {
        Some(k) => Some(k),
        None => second,
    }
}

impl KeyBindings {
    /// The chosen keys, from the values of the options that choose them: for
    /// each action, the newer option first, then the older one.
    pub fn from_options(
        bind_install: Option<String>,
        install: Option<String>,
        bind_update: Option<String>,
        update: Option<String>,
        bind_clean: Option<String>,
        clean: Option<String>,
    ) -> (r: KeyBindings)
        ensures
            opt_view(r.install_key) == chosen(bind_install, install),
            opt_view(r.update_key) == chosen(bind_update, update),
            opt_view(r.clean_key) == chosen(bind_clean, clean),
    {
        KeyBindings {
            install_key: first_set(bind_install, install),
            update_key: first_set(bind_update, update),
            clean_key: first_set(bind_clean, clean),
        }
    }

    /// The tmux commands that set up the bindings (see [`binding_commands`]).
    pub fn commands(&self) -> (r: Vec<Vec<String>>)
        ensures
            r@.len() == binding_commands(opt_view(self.install_key), opt_view(self.update_key), opt_view(self.clean_key)).len(),
            forall|k: int|
                0 <= k < r@.len() ==> (#[trigger] r@[k])@.map_values(|s: String| s@) == binding_commands(
                    opt_view(self.install_key),
                    opt_view(self.update_key),
                    opt_view(self.clean_key),
                )[k],
    {
        let ghost want = binding_commands(opt_view(self.install_key), opt_view(self.update_key), opt_view(self.clean_key));
        let ghost views = |c: Vec<String>| c@.map_values(|s: String| s@);
        let mut r: Vec<Vec<String>> = Vec::new();
        if self.install_key.is_none() {
            r.push(popup_command("I", INSTALL_COMPAT_SCRIPT));
        }
        if self.update_key.is_none() {
            r.push(popup_command("U", UPDATE_COMPAT_SCRIPT));
        }
        if self.clean_key.is_none() {
            r.push(popup_command("M-u", CLEAN_COMPAT_SCRIPT));
        }
        let install = match &self.install_key {
            Some(k) => k.as_str(),
            None => "M-I",
        };
        let update = match &self.update_key {
            Some(k) => k.as_str(),
            None => "M-U",
        };
        let clean = match &self.clean_key {
            Some(k) => k.as_str(),
            None => "M-C",
        };
        r.push(popup_command(install, INSTALL_SCRIPT));
        r.push(popup_command(update, UPDATE_SCRIPT));
        r.push(popup_command(clean, CLEAN_SCRIPT));
        assert(r@.map_values(views) =~= want);
        assert forall|k: int| 0 <= k < r@.len() implies (#[trigger] r@[k])@.map_values(|s: String| s@) == want[k] by {
            assert(r@.map_values(views)[k] == views(r@[k]));
        }
        r
    }
}

} // verus!
