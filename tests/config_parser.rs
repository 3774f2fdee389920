use ahiru_tpm::plugin_spec::SpecError;
use ahiru_tpm::source_path;
use ahiru_tpm::tmux_config_parser::{parse, ConfigDirective, ConfigError};

fn names(ds: &[ConfigDirective]) -> Vec<String> {
    ds.iter()
        .map(|d| match d {
            ConfigDirective::PluginSpec(s) => format!("plugin:{}", s.effective_name()),
            ConfigDirective::Source(p) => format!("source:{}", p),
        })
        .collect()
}

#[test]
fn finds_plugin_and_source_directives() {
    let text = "# comment\nset -g @plugin 'user/one'\nset-option -g @plugin \"user/two; alias=deux\" # trailing\nset -g status on\nsource-file -q \"#{d:current_file}/extra.conf\"\nsource '/etc/other.conf'\nbind r source ~/.tmux.conf\n";
    let ds = parse(text, "/home/me", "/start").unwrap();
    assert_eq!(
        names(&ds),
        vec![
            "plugin:one",
            "plugin:deux",
            "source:/home/me/extra.conf",
            "source:/etc/other.conf",
        ]
    );
}

#[test]
fn ignores_other_options_and_commented_lines() {
    let text = "set -g @plugins 'x/y'\n  # set -g @plugin 'a/b'\nsetw -g @plugin 'c/d'\n";
    let ds = parse(text, "/d", "/s").unwrap();
    assert!(ds.is_empty());
}

#[test]
fn bare_values_are_accepted() {
    let ds = parse("set -g @plugin user/bare\nsource relative.conf", "/d", "/s").unwrap();
    assert_eq!(names(&ds), vec!["plugin:bare", "source:/s/relative.conf"]);
}

#[test]
fn unterminated_quote_is_a_syntax_error_with_line() {
    match parse("\nset -g @plugin 'user/repo\n", "/d", "/s") {
        Err(ConfigError::Syntax { line, text }) => {
            assert_eq!(line, 2);
            assert_eq!(text, "'user/repo");
        }
        other => panic!("unexpected: {:?}", other),
    }
}

#[test]
fn trailing_text_is_a_syntax_error() {
    match parse("set -g @plugin 'a/b' junk", "/d", "/s") {
        Err(ConfigError::Syntax { line, text }) => {
            assert_eq!(line, 1);
            assert_eq!(text, "junk");
        }
        other => panic!("unexpected: {:?}", other),
    }
}

#[test]
fn refused_declaration_names_its_line() {
    match parse("set -g @plugin 'a/b'\n\nset -g @plugin ''\n", "/d", "/s") {
        Err(ConfigError::InvalidSpec { line, error }) => {
            assert_eq!(line, 3);
            assert_eq!(error, SpecError::EmptySpec);
        }
        other => panic!("unexpected: {:?}", other),
    }
}

#[test]
fn source_paths_resolve_against_their_base() {
    assert_eq!(source_path::parse("/abs/x.conf", "/cfg", "/start"), "/abs/x.conf");
    assert_eq!(source_path::parse("rel/x.conf", "/cfg", "/start"), "/start/rel/x.conf");
    assert_eq!(source_path::parse("rel", "/cfg", "/start/"), "/start/rel");
    assert_eq!(
        source_path::parse("#{d:current_file}//x.conf", "/cfg", "/start"),
        "/cfg/x.conf"
    );
    assert_eq!(source_path::parse("#{d:current_file}", "/cfg", "/start"), "/cfg");
}

#[test]
fn config_dir_is_the_parent() {
    assert_eq!(source_path::config_dir_of("/etc/tmux.conf"), "/etc");
    assert_eq!(source_path::config_dir_of("/tmux.conf"), "/");
    assert_eq!(source_path::config_dir_of("tmux.conf"), "");
    assert_eq!(source_path::join("/a/", "b"), "/a/b");
}
