//! A plugin: a parsed declaration together with its local installation path.

use vstd::prelude::*;

use crate::plugin_spec::{Spec, SpecView};
use crate::repo_url::{parsed_url, InvalidUrl};
use crate::source_path::{join, join_path};
use crate::text::push_str;
use crate::utils::{bool_named, parse_bool};

verus! {

/// A declared plugin. Its path is computed once, when it is made, as the
/// plugin root joined with the plugin's effective name.
#[derive(Debug)]
pub struct Plugin {
    spec: Spec,
    path: String,
}

/// What a [`Plugin`] holds.
pub struct PluginView {
    pub spec: SpecView,
    pub path: Seq<char>,
}

impl View for Plugin {
    type V = PluginView;

    closed spec fn view(&self) -> PluginView {
        PluginView { spec: self.spec@, path: self.path@ }
    }
}

impl PluginView {
    /// The plugin's local identity.
    pub open spec fn name(self) -> Seq<char> {
        self.spec.effective_name()
    }

    /// Whether the plugin joins the parallel group of an action: its own
    /// `parallel` attribute decides where it holds a yes/no value, else `default`.
    pub open spec fn joins_parallel(self, default: bool) -> bool {
        match self.spec.parallel {
            Some(p) => match bool_named(p) {
                Some(b) => b,
                None => default,
            },
            None => default,
        }
    }

    /// How the plugin is shown to the user: `name (url)`, or `name (url#branch)`.
    pub open spec fn display(self) -> Seq<char> {
        let tail = match self.spec.branch {
            Some(b) => "#"@ + b + ")"@,
            None => ")"@,
        };
        self.spec.name + " ("@ + self.spec.url.text() + tail
    }
}

/// The installation path of a plugin whose effective name is `name`, under `plugins_dir`.
pub open spec fn plugin_path(plugins_dir: Seq<char>, name: Seq<char>) -> Seq<char> {
    join_path(plugins_dir, name)
}

impl Plugin {
    /// The plugin of a declaration, installed under `plugins_dir`.
    pub fn new(spec: Spec, plugins_dir: &str) -> (r: Plugin)
        ensures
            r@.spec == spec@,
            r@.path == plugin_path(plugins_dir@, spec@.effective_name()),
    {
        let path = join(plugins_dir, spec.effective_name().as_str());
        Plugin { spec, path }
    }

    /// The declaration.
    pub fn spec(&self) -> (r: &Spec)
        ensures
            r@ == self@.spec,
    {
        &self.spec
    }

    /// The plugin's local identity: the `alias` attribute where there is one, else the repository name.
    pub fn name(&self) -> (r: &String)
        ensures
            r@ == self@.name(),
    {
        self.spec.effective_name()
    }

    /// Where the plugin is installed.
    pub fn path(&self) -> (r: &String)
        ensures
            r@ == self@.path,
    {
        &self.path
    }

    /// The branch to fetch, if the declaration names one.
    pub fn branch(&self) -> (r: Option<&str>)
        ensures
            self@.spec.branch is None ==> r is None,
            self@.spec.branch matches Some(b) ==> (r matches Some(rb) && rb@ == b),
    {
        self.spec.branch()
    }

    /// The URL to fetch the repository from.
    pub fn url(&self) -> (r: Result<String, InvalidUrl>)
        ensures
            r is Ok <==> parsed_url(self@.spec.url.fetch_text()) is Some,
            r matches Ok(u) ==> parsed_url(self@.spec.url.fetch_text()) == Some(u@),
            r matches Err(e) ==> e.text@ == self@.spec.url.fetch_text(),
    {
        self.spec.url().url()
    }

    /// Whether the plugin joins the parallel group of an action, `default` being the global choice.
    pub fn parallel(&self, default: bool) -> (r: bool)
        ensures
            r == self@.joins_parallel(default),
    {
        match self.spec.attribute(crate::attribute::Attribute::Parallel) {
            Some(p) => match parse_bool(p.as_str()) {
                Some(b) => b,
                None => default,
            },
            None => default,
        }
    }

    /// How the plugin is shown to the user: `name (url)`, or `name (url#branch)`.
    pub fn to_string(&self) -> (r: String)
        ensures
            r@ == self@.display(),
    {
        let mut r = String::new();
        push_str(&mut r, self.spec.name().as_str());
        push_str(&mut r, " (");
        push_str(&mut r, self.spec.url().to_string().as_str());
        match self.spec.branch() {
            Some(b) => {
                push_str(&mut r, "#");
                push_str(&mut r, b);
            },
            None => {},
        }
        push_str(&mut r, ")");
        proof {
            assert(Seq::<char>::empty() + self@.spec.name =~= self@.spec.name);
        }
        r
    }
}

} // verus!
