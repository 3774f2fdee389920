use ahiru_tpm::attribute::Attribute;
use ahiru_tpm::plugin_spec::{parse_spec, Spec, SpecError};
use ahiru_tpm::repo_url::{RepoUrl, UrlAlias};

#[test]
fn test_parse_short_url() {
    let value = "user_name/repo-name";
    let spec = Spec::try_from(value).unwrap();
    assert_eq!(spec.name(), "repo-name");
    assert_eq!(spec.url(), &RepoUrl::Short("user_name/repo-name".into()));
    assert_eq!(spec.branch(), None);
    assert!(spec.attributes().is_empty());
}

#[test]
fn test_parse_short_url_with_branch() {
    let value = "user_name/repo-name#branch/name";
    let spec = Spec::try_from(value).unwrap();
    assert_eq!(spec.name(), "repo-name");
    assert_eq!(spec.url(), &RepoUrl::Short("user_name/repo-name".into()));
    assert_eq!(spec.branch(), Some("branch/name"));
    assert!(spec.attributes().is_empty());
}

#[test]
fn test_should_error_on_empty_value() {
    let value = "";
    let result = Spec::try_from(value);
    let err = result.unwrap_err();
    assert_eq!(err.to_string(), "Plugin spec must not be empty");
}

#[test]
fn parses_short_url_into_name_and_url() {
    let spec = parse_spec("user/repo").unwrap();
    assert_eq!(spec.name(), "repo");
    assert_eq!(spec.url(), &RepoUrl::Short("user/repo".into()));
    assert_eq!(spec.branch(), None);
    assert!(spec.attributes().is_empty());
    assert_eq!(spec.effective_name(), "repo");
}

#[test]
fn parses_branch_with_slash() {
    let spec = parse_spec("user/repo#feature/x").unwrap();
    assert_eq!(spec.branch(), Some("feature/x"));
    assert_eq!(spec.name(), "repo");
}

#[test]
fn parses_alias_and_parallel_attributes() {
    let spec = parse_spec("user/repo; alias=foo; parallel=false").unwrap();
    assert_eq!(
        spec.attributes(),
        vec![
            (Attribute::Alias, "foo".to_string()),
            (Attribute::Parallel, "false".to_string())
        ]
    );
    assert_eq!(spec.attribute(Attribute::Alias).map(|s| s.as_str()), Some("foo"));
    assert_eq!(spec.effective_name(), "foo");
    assert_eq!(spec.name(), "repo");
}

#[test]
fn empty_declaration_is_refused() {
    assert_eq!(parse_spec(""), Err(SpecError::EmptySpec));
}

#[test]
fn parses_provider_prefix() {
    let spec = parse_spec("gitlab:someone/thing").unwrap();
    assert_eq!(spec.url(), &RepoUrl::Alias(UrlAlias::GitLab, "someone/thing".into()));
    assert_eq!(spec.name(), "thing");
    assert_eq!(spec.url().to_string(), "gitlab:someone/thing");
}

#[test]
fn parses_full_url_and_drops_git_suffix_from_name() {
    let spec = parse_spec("https://example.com/path/tool.git#main").unwrap();
    assert_eq!(
        spec.url(),
        &RepoUrl::Full("https://example.com/path/tool.git".into())
    );
    assert_eq!(spec.name(), "tool");
    assert_eq!(spec.branch(), Some("main"));
}

#[test]
fn quoted_attribute_values() {
    let spec = parse_spec(r#"user/repo; alias="a \"b\" ;c"; parallel='no'"#).unwrap();
    assert_eq!(spec.attribute(Attribute::Alias).unwrap(), r#"a "b" ;c"#);
    assert_eq!(spec.attribute(Attribute::Parallel).unwrap(), "no");
}

#[test]
fn unknown_attribute_is_dropped() {
    let spec = parse_spec("user/repo; color=red").unwrap();
    assert!(spec.attributes().is_empty());
}

#[test]
fn later_attribute_replaces_earlier() {
    let spec = parse_spec("user/repo; alias=one; alias=two").unwrap();
    assert_eq!(spec.effective_name(), "two");
}

#[test]
fn syntax_errors_carry_the_offending_text() {
    assert_eq!(
        parse_spec("user/repo; alias"),
        Err(SpecError::SyntaxError("alias".into()))
    );
    assert_eq!(
        parse_spec("not a spec"),
        Err(SpecError::SyntaxError("not a spec".into()))
    );
    assert_eq!(
        parse_spec("user/repo#"),
        Err(SpecError::SyntaxError("#".into()))
    );
    assert_eq!(
        parse_spec("user/repo extra"),
        Err(SpecError::SyntaxError("extra".into()))
    );
    assert_eq!(
        parse_spec("unknown:user/repo"),
        Err(SpecError::SyntaxError("unknown:user/repo".into()))
    );
    let err = parse_spec("user/repo;").unwrap_err();
    assert_eq!(err.to_string(), "Invalid plugin spec syntax at: ");
}

#[test]
fn legacy_declaration_is_not_parallel() {
    let spec = Spec::try_from_legacy("user/repo").unwrap();
    assert_eq!(spec.attribute(Attribute::Parallel).unwrap(), "false");
    assert_eq!(spec.name(), "repo");
}

#[test]
fn legacy_declaration_with_attributes_is_refused() {
    assert_eq!(
        Spec::try_from_legacy("user/repo;alias=x"),
        Err(SpecError::LegacyAttributes("user/repo;alias=x".into()))
    );
}

#[test]
fn fetch_urls_of_each_kind() {
    assert_eq!(
        RepoUrl::Short("u/r".into()).fetch_text(),
        "https://github.com/u/r.git"
    );
    assert_eq!(
        RepoUrl::Alias(UrlAlias::Codeberg, "u/r".into()).fetch_text(),
        "https://codeberg.org/u/r.git"
    );
    assert_eq!(
        RepoUrl::Alias(UrlAlias::BitBucket, "u/r".into()).fetch_text(),
        "https://bitbucket.org/u/r.git"
    );
    assert_eq!(
        RepoUrl::Full("https://x.org/a/b".into()).fetch_text(),
        "https://x.org/a/b"
    );
}

#[test]
fn url_parser_normalizes_the_fetch_url() {
    let url = RepoUrl::Full("HTTPS://Example.COM/a/b.git".into()).url().unwrap();
    assert_eq!(url, "https://example.com/a/b.git");
    let err = RepoUrl::Full("https://exa mple.com/a".into()).url().unwrap_err();
    assert_eq!(err.text, "https://exa mple.com/a");
}

#[test]
fn attribute_keys() {
    assert_eq!(Attribute::from_key("alias"), Some(Attribute::Alias));
    assert_eq!(Attribute::from_key("parallel"), Some(Attribute::Parallel));
    assert_eq!(Attribute::from_key("other"), None);
    assert_eq!(Attribute::Parallel.key(), "parallel");
}
