use ahiru_tpm::loader::{load_specs, LoadError, SpecLoader, MAX_INCLUDE_DEPTH};
use ahiru_tpm::plugin_spec::{parse_spec, Spec, SpecError};
use ahiru_tpm::plugins::{get_plugins, legacy_specs, RegistryError};

fn specs(decls: &[&str]) -> Vec<Spec> {
    decls.iter().map(|d| parse_spec(d).unwrap()).collect()
}

#[test]
fn duplicate_effective_names_are_refused() {
    let declared = specs(&["a/dup", "b/other; alias=dup"]);
    match get_plugins(None, declared, "/plugins") {
        Err(RegistryError::DuplicateName(name)) => assert_eq!(name, "dup"),
        other => panic!("unexpected: {:?}", other),
    }
}

#[test]
fn duplicate_between_legacy_and_declared() {
    let declared = specs(&["other/dup"]);
    match get_plugins(Some("x/dup"), declared, "/plugins") {
        Err(RegistryError::DuplicateName(name)) => assert_eq!(name, "dup"),
        other => panic!("unexpected: {:?}", other),
    }
}

#[test]
fn legacy_plugins_come_first_and_paths_are_set() {
    let declared = specs(&["c/three", "d/four; alias=vier"]);
    let plugins = get_plugins(Some(" a/one  b/two "), declared, "/p").unwrap();
    let names: Vec<&str> = plugins.iter().map(|p| p.name().as_str()).collect();
    assert_eq!(names, vec!["one", "two", "three", "vier"]);
    assert_eq!(plugins[3].path(), "/p/vier");
    assert!(!plugins[0].parallel(true));
    assert!(plugins[2].parallel(true));
    assert_eq!(plugins[0].to_string(), "one (a/one)");
}

#[test]
fn legacy_option_errors() {
    assert_eq!(
        legacy_specs("a/b c/d;x=y"),
        Err(SpecError::LegacyAttributes("c/d;x=y".into()))
    );
    assert!(legacy_specs("").unwrap().is_empty());
    match get_plugins(Some("bad"), vec![], "/p") {
        Err(RegistryError::InvalidSpec(SpecError::SyntaxError(_))) => {}
        other => panic!("unexpected: {:?}", other),
    }
}

fn drive(loader: &mut SpecLoader, files: &[(&str, &str)]) -> Result<(), LoadError> {
    while let Some(path) = loader.next() {
        let text = files
            .iter()
            .find(|(p, _)| *p == path)
            .map(|(_, t)| *t)
            .unwrap_or("");
        loader.feed(text, "/start")?;
    }
    Ok(())
}

#[test]
fn loader_follows_sources_depth_first() {
    let files = [
        ("/etc/tmux.conf", "set -g @plugin 'a/first'\nsource '/inc.conf'\nset -g @plugin 'a/last'"),
        ("/inc.conf", "set -g @plugin 'a/middle'"),
        ("/home/.tmux.conf", "set -g @plugin 'a/home'"),
    ];
    let mut loader = load_specs(vec!["/etc/tmux.conf".into(), "/home/.tmux.conf".into()]).unwrap();
    drive(&mut loader, &files).unwrap();
    let names: Vec<String> = loader.finish().iter().map(|s| s.name().clone()).collect();
    assert_eq!(names, vec!["first", "middle", "last", "home"]);
}

#[test]
fn loader_stops_a_file_that_includes_itself() {
    let files = [("/loop.conf", "source '/loop.conf'")];
    let mut loader = load_specs(vec!["/loop.conf".into()]).unwrap();
    match drive(&mut loader, &files) {
        Err(LoadError::TooDeep { path }) => assert_eq!(path, "/loop.conf"),
        other => panic!("unexpected: {:?}", other),
    }
    assert!(MAX_INCLUDE_DEPTH > 0);
}

#[test]
fn loader_without_files_fails() {
    assert!(matches!(load_specs(vec![]), Err(LoadError::NoConfigFiles)));
}

#[test]
fn loader_reports_the_refused_file() {
    let files = [("/c.conf", "set -g @plugin 'oops")];
    let mut loader = load_specs(vec!["/c.conf".into()]).unwrap();
    match drive(&mut loader, &files) {
        Err(LoadError::Config { path, .. }) => assert_eq!(path, "/c.conf"),
        other => panic!("unexpected: {:?}", other),
    }
}
