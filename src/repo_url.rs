//! Repository references and the fetch URLs they stand for.

use vstd::prelude::*;

use crate::text::{push_str, str_eq};

verus! {

/// A hosting provider that a declaration may name by a short prefix (`github:user/repo`).
#[derive(Clone, Copy, Debug, PartialEq, Eq, Structural)]
pub enum UrlAlias {
    Codeberg,
    GitHub,
    GitLab,
    BitBucket,
}

/// The provider that a prefix names, if any.
pub open spec fn alias_named(prefix: Seq<char>) -> Option<UrlAlias> {
    if prefix == "codeberg"@ {
        Some(UrlAlias::Codeberg)
    } else if prefix == "github"@ {
        Some(UrlAlias::GitHub)
    } else if prefix == "gitlab"@ {
        Some(UrlAlias::GitLab)
    } else if prefix == "bitbucket"@ {
        Some(UrlAlias::BitBucket)
    } else {
        None
    }
}

impl UrlAlias {
    /// The prefix as it is written in a declaration.
    pub open spec fn spec_prefix(self) -> Seq<char> {
        match self {
            UrlAlias::Codeberg => "codeberg"@,
            UrlAlias::GitHub => "github"@,
            UrlAlias::GitLab => "gitlab"@,
            UrlAlias::BitBucket => "bitbucket"@,
        }
    }

    /// The start of the fetch URL of a repository at this provider.
    pub open spec fn spec_base(self) -> Seq<char> {
        match self {
            UrlAlias::Codeberg => "https://codeberg.org/"@,
            UrlAlias::GitHub => "https://github.com/"@,
            UrlAlias::GitLab => "https://gitlab.com/"@,
            UrlAlias::BitBucket => "https://bitbucket.org/"@,
        }
    }

    /// The prefix as it is written in a declaration.
    pub fn prefix(&self) -> (r: &'static str)
        ensures
            r@ == self.spec_prefix(),
    {
        match self {
            UrlAlias::Codeberg => "codeberg",
            UrlAlias::GitHub => "github",
            UrlAlias::GitLab => "gitlab",
            UrlAlias::BitBucket => "bitbucket",
        }
    }

    /// The start of the fetch URL of a repository at this provider.
    pub fn base(&self) -> (r: &'static str)
        ensures
            r@ == self.spec_base(),
    {
        match self {
            UrlAlias::Codeberg => "https://codeberg.org/",
            UrlAlias::GitHub => "https://github.com/",
            UrlAlias::GitLab => "https://gitlab.com/",
            UrlAlias::BitBucket => "https://bitbucket.org/",
        }
    }

    /// The provider that `prefix` names, if any.
    pub fn from_prefix(prefix: &str) -> (r: Option<UrlAlias>)
        ensures
            r == alias_named(prefix@),
    {
        if str_eq(prefix, "codeberg") {
            Some(UrlAlias::Codeberg)
        } else if str_eq(prefix, "github") {
            Some(UrlAlias::GitHub)
        } else if str_eq(prefix, "gitlab") {
            Some(UrlAlias::GitLab)
        } else if str_eq(prefix, "bitbucket") {
            Some(UrlAlias::BitBucket)
        } else {
            None
        }
    }
}

/// Where a plugin's repository lives.
#[derive(Clone, Debug, PartialEq, Eq)]
pub enum RepoUrl {
    /// `user/repo`, hosted on GitHub.
    Short(String),
    /// A URL written out in full.
    Full(String),
    /// `user/repo` at a provider named by its prefix.
    Alias(UrlAlias, String),
}

/// What a [`RepoUrl`] holds.
pub enum RepoUrlView {
    Short(Seq<char>),
    Full(Seq<char>),
    Alias(UrlAlias, Seq<char>),
}

impl View for RepoUrl {
    type V = RepoUrlView;

    open spec fn view(&self) -> RepoUrlView {
        match self {
            RepoUrl::Short(u) => RepoUrlView::Short(u@),
            RepoUrl::Full(u) => RepoUrlView::Full(u@),
            RepoUrl::Alias(a, u) => RepoUrlView::Alias(*a, u@),
        }
    }
}

impl RepoUrlView {
    /// The reference as a declaration writes it.
    pub open spec fn text(self) -> Seq<char> {
        match self {
            RepoUrlView::Short(u) => u,
            RepoUrlView::Full(u) => u,
            RepoUrlView::Alias(a, u) => a.spec_prefix() + ":"@ + u,
        }
    }

    /// The URL that the repository is fetched from, before URL parsing.
    pub open spec fn fetch_text(self) -> Seq<char> {
        match self {
            RepoUrlView::Short(u) => "https://github.com/"@ + u + ".git"@,
            RepoUrlView::Full(u) => u,
            RepoUrlView::Alias(a, u) => a.spec_base() + u + ".git"@,
        }
    }
}

/// A fetch URL that the URL parser refused; it holds the text given to the parser.
#[derive(Clone, Debug)]
pub struct InvalidUrl {
    pub text: String,
}

/// What URL parsing makes of a text: its serialization, or `None` where the text is refused.
pub uninterp spec fn parsed_url(text: Seq<char>) -> Option<Seq<char>>;

#[verifier::external_type_specification]
#[verifier::external_body]
pub struct ExParseError(url::ParseError);

/// Relies on `url::Url::parse`: whether a text parses, and the serialization it
/// parses to, depend on the text alone.
#[verifier::external_body]
fn parse_url_text(text: &str) -> (r: Result<String, url::ParseError>)
    ensures
        r is Ok <==> parsed_url(text@) is Some,
        r matches Ok(u) ==> parsed_url(text@) == Some(u@),
{
    match url::Url::parse(text) {
        Ok(u) => Ok(u.into()),
        Err(e) => Err(e),
    }
}

impl RepoUrl {
    /// The reference as a declaration writes it (`user/repo`, a full URL, or `prefix:user/repo`).
    pub fn to_string(&self) -> (r: String)
        ensures
            r@ == self@.text(),
    {
        match self {
            RepoUrl::Short(u) => u.clone(),
            RepoUrl::Full(u) => u.clone(),
            RepoUrl::Alias(a, u) => {
                let mut r = String::new();
                push_str(&mut r, a.prefix());
                push_str(&mut r, ":");
                push_str(&mut r, u.as_str());
                r
            },
        }
    }

    /// The URL that the repository is fetched from, before URL parsing.
    pub fn fetch_text(&self) -> (r: String)
        ensures
            r@ == self@.fetch_text(),
    {
        match self {
            RepoUrl::Short(u) => {
                let mut r = String::new();
                push_str(&mut r, "https://github.com/");
                push_str(&mut r, u.as_str());
                push_str(&mut r, ".git");
                r
            },
            RepoUrl::Full(u) => u.clone(),
            RepoUrl::Alias(a, u) => {
                let mut r = String::new();
                push_str(&mut r, a.base());
                push_str(&mut r, u.as_str());
                push_str(&mut r, ".git");
                r
            },
        }
    }

    /// The parsed fetch URL, as the URL parser serializes it.
    pub fn url(&self) -> (r: Result<String, InvalidUrl>)
        ensures
            r is Ok <==> parsed_url(self@.fetch_text()) is Some,
            r matches Ok(u) ==> parsed_url(self@.fetch_text()) == Some(u@),
            r matches Err(e) ==> e.text@ == self@.fetch_text(),
    {
        let text = self.fetch_text();
        match parse_url_text(text.as_str()) {
            Ok(u) => Ok(u),
            Err(_) => Err(InvalidUrl { text }),
        }
    }
}

} // verus!
