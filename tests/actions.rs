use ahiru_tpm::action::{parse_action, Action};
use ahiru_tpm::action_result::ActionResult;
use ahiru_tpm::actions::{
    init_script_pattern, init_scripts, install_step, plugins_to_install, plugins_to_update,
    select_by_names, stale_paths, update_commands, ActionError, DirEntry, FileEntry, InstallStep,
};
use ahiru_tpm::key_bindings::KeyBindings;
use ahiru_tpm::orchestrator::{do_parallel, split_by_parallel, summarize, Batch};
use ahiru_tpm::plugin::Plugin;
use ahiru_tpm::plugin_spec::parse_spec;
use ahiru_tpm::tmux::{config_paths, existing_config_paths, get_plugins_dir};
use ahiru_tpm::utils::parse_bool;

fn plugin(decl: &str) -> Plugin {
    Plugin::new(parse_spec(decl).unwrap(), "/root/plugins")
}

fn outcome(p: Plugin, ok: bool) -> ActionResult {
    let result = if ok { Ok(()) } else { Err("exit status: 128".to_string()) };
    ActionResult::new(p, (result, String::new(), "fatal: repository not found\n".to_string()))
}

#[test]
fn failing_clone_does_not_stop_the_batch() {
    let mut batch = Batch::new(vec![plugin("u/one"), plugin("u/two"), plugin("u/three")]);
    let mut handed = vec![];
    while let Some(p) = batch.next() {
        let ok = p.name() != "two";
        handed.push(p.name().clone());
        batch.record(outcome(p, ok));
    }
    assert_eq!(handed, vec!["one", "two", "three"]);
    let results = batch.finish();
    let report = summarize(&results);
    assert!(!report.all_succeeded());
    assert_eq!(report.failed, vec![1]);
    assert_eq!(report.succeeded, 2);
    assert_eq!(results[report.failed[0]].plugin.name(), "two");
}

#[test]
fn batch_hands_out_everything_at_once() {
    let mut batch = Batch::new(vec![plugin("u/one"), plugin("u/two")]);
    let all = batch.take_all();
    assert_eq!(all.len(), 2);
    assert_eq!(all[0].name(), "one");
    assert!(batch.next().is_none());
}

#[test]
fn second_install_clones_nothing() {
    let installed = vec![true, false, false];
    let first = plugins_to_install(vec![plugin("u/a"), plugin("u/b"), plugin("u/c")], &installed);
    let names: Vec<&str> = first.iter().map(|p| p.name().as_str()).collect();
    assert_eq!(names, vec!["b", "c"]);
    let after = vec![true, true, true];
    let second = plugins_to_install(vec![plugin("u/a"), plugin("u/b"), plugin("u/c")], &after);
    assert!(second.is_empty());
    let p = plugin("u/a");
    assert!(matches!(install_step(&p, true), Ok(InstallStep::Skipped)));
}

#[test]
fn clone_command_with_branch() {
    let p = plugin("user/repo#dev");
    match install_step(&p, false) {
        Ok(InstallStep::Clone(args)) => assert_eq!(
            args,
            vec![
                "git",
                "clone",
                "--single-branch",
                "--recursive",
                "--branch",
                "dev",
                "https://github.com/user/repo.git",
                "/root/plugins/repo",
            ]
        ),
        other => panic!("unexpected: {:?}", other),
    }
}

#[test]
fn clean_removes_exactly_the_undeclared_directories() {
    let declared = vec![
        Plugin::new(parse_spec("u/a").unwrap(), "/p"),
        Plugin::new(parse_spec("u/c").unwrap(), "/p"),
    ];
    let entries: Vec<DirEntry> = ["a", "b", "c"]
        .iter()
        .map(|n| DirEntry { name: n.to_string(), is_dir: true })
        .collect();
    assert_eq!(stale_paths(&declared, "/p", &entries), vec!["/p/b"]);
}

#[test]
fn clean_leaves_files_and_odd_names() {
    let entries = vec![
        DirEntry { name: "file.txt".into(), is_dir: false },
        DirEntry { name: "..".into(), is_dir: true },
        DirEntry { name: "old".into(), is_dir: true },
    ];
    assert_eq!(stale_paths(&vec![], "/p", &entries), vec!["/p/old"]);
}

#[test]
fn update_needs_an_installed_plugin() {
    let p = plugin("u/x");
    match update_commands(&p, false) {
        Err(ActionError::NotInstalled(n)) => assert_eq!(n, "x"),
        other => panic!("unexpected: {:?}", other),
    }
    let cmds = update_commands(&p, true).unwrap();
    assert_eq!(cmds[0], vec!["git", "pull", "--rebase"]);
    assert_eq!(cmds[1], vec!["git", "submodule", "update", "--init", "--recursive"]);
    let kept = plugins_to_update(vec![plugin("u/a"), plugin("u/b")], &vec![false, true]);
    assert_eq!(kept.len(), 1);
    assert_eq!(kept[0].name(), "b");
}

#[test]
fn update_by_names() {
    let picked = select_by_names(
        vec![plugin("u/a"), plugin("u/b"), plugin("u/c")],
        &vec!["c".to_string(), "a".to_string()],
    )
    .unwrap();
    let names: Vec<&str> = picked.iter().map(|p| p.name().as_str()).collect();
    assert_eq!(names, vec!["c", "a"]);
    match select_by_names(vec![plugin("u/a")], &vec!["z".to_string()]) {
        Err(ActionError::UnknownPlugin(n)) => assert_eq!(n, "z"),
        other => panic!("unexpected: {:?}", other),
    }
}

#[test]
fn init_scripts_are_executable_tmux_files() {
    let p = plugin("u/x");
    assert_eq!(init_script_pattern(&p), "/root/plugins/x/*.tmux");
    let files = vec![
        FileEntry { path: "/x/a.tmux".into(), is_file: true, is_executable: true },
        FileEntry { path: "/x/b.tmux".into(), is_file: true, is_executable: false },
        FileEntry { path: "/x/c.sh".into(), is_file: true, is_executable: true },
        FileEntry { path: "/x/d.tmux".into(), is_file: false, is_executable: true },
    ];
    assert_eq!(init_scripts(&files), vec!["/x/a.tmux"]);
}

#[test]
fn parallel_option_and_split() {
    assert!(do_parallel(None));
    assert!(do_parallel(Some("yes")));
    assert!(!do_parallel(Some("off")));
    assert!(do_parallel(Some("maybe")));
    assert_eq!(parse_bool("1"), Some(true));
    assert_eq!(parse_bool("n"), Some(false));
    assert_eq!(parse_bool("True"), None);
    let (seq, par) = split_by_parallel(
        vec![plugin("u/a; parallel=false"), plugin("u/b"), plugin("u/c; parallel=yes")],
        false,
    );
    let s: Vec<&str> = seq.iter().map(|p| p.name().as_str()).collect();
    let q: Vec<&str> = par.iter().map(|p| p.name().as_str()).collect();
    assert_eq!(s, vec!["a", "b"]);
    assert_eq!(q, vec!["c"]);
}

#[test]
fn failure_details_prefix_each_stream() {
    let r = ActionResult::new(
        plugin("u/x"),
        (Err("failed".into()), "one\ntwo\n".into(), "bad".into()),
    );
    assert_eq!(r.failure_details("out> ", "err> "), "out> one\nout> two\nerr> bad\n");
    let quiet = ActionResult::new(plugin("u/y"), (Err("failed".into()), String::new(), String::new()));
    assert_eq!(quiet.failure_details("out> ", "err> "), "");
}

#[test]
fn actions_by_name() {
    assert_eq!(parse_action("install").unwrap(), Action::Install);
    assert_eq!(Action::from_name(None).unwrap(), Action::Load);
    let err = parse_action("frobnicate").unwrap_err();
    assert_eq!(err.to_string(), "Unknown action: frobnicate");
}

#[test]
fn key_bindings_fall_back_to_defaults_and_compat_keys() {
    let binds = KeyBindings::from_options(None, Some("F1".into()), None, None, Some("C".into()), None);
    let cmds = binds.commands();
    assert_eq!(cmds.len(), 4);
    assert_eq!(cmds[0][2], "U");
    assert_eq!(cmds[1][2], "F1");
    assert_eq!(cmds[2][2], "M-U");
    assert_eq!(cmds[3][2], "C");
    assert_eq!(cmds[1][0], "tmux");
    assert_eq!(cmds[1][3], "display-popup");
}

#[test]
fn tmux_paths() {
    assert_eq!(get_plugins_dir("/home/me/.local/share"), "/home/me/.local/share/tmux/plugins");
    let all = config_paths("/home/me", "/home/me/.config");
    assert_eq!(
        all,
        vec!["/etc/tmux.conf", "/home/me/.tmux.conf", "/home/me/.config/tmux/tmux.conf"]
    );
    assert_eq!(
        existing_config_paths(all, &vec![false, true, true]),
        vec!["/home/me/.tmux.conf", "/home/me/.config/tmux/tmux.conf"]
    );
}

#[test]
fn actions_by_conversion() {
    assert_eq!(Action::try_from("load").unwrap(), Action::Load);
    assert_eq!(Action::try_from(Some("install")).unwrap(), Action::Install);
    assert_eq!(Action::try_from(None::<&str>).unwrap(), Action::Load);
    assert!(Action::try_from("other").is_err());
}
