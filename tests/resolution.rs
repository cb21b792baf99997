use dingus::catalog::config_files;
use dingus::dingus::{Dingus, SubCommand};
use dingus::error::Error;
use dingus::level::parse_level;
use dingus::locate::{extension_in, marker_in};
use dingus::path::{join_path, parent_dir};
use dingus::shell::Shell;
use dingus::variables::VariableMap;

fn strings(items: &[&str]) -> Vec<String> {
    items.iter().map(|s| s.to_string()).collect()
}

#[test]
fn scenario_marker_in_ancestor() {
    let dirs = Dingus::candidate_directories("/proj/src/lib");
    assert_eq!(dirs, strings(&["/proj/src/lib", "/proj/src", "/proj", "/"]));
    let found = Dingus::recursively_walk_upwards_for_dingus_file(
        "/proj/src/lib",
        &vec![false, false, true],
    );
    assert_eq!(found, Some("/proj/.dingus".to_string()));
    let env = Dingus::get_environment("FOO: \"1\"\nBAR: \"2\"\n", &None).unwrap();
    assert_eq!(env.get("FOO"), Some("1".to_string()));
    assert_eq!(env.get("BAR"), Some("2".to_string()));
    assert_eq!(env.get("DINGUS_LEVEL"), Some("1".to_string()));
    assert_eq!(env.pairs().len(), 3);
}

#[test]
fn closest_marker_wins() {
    let here = "/proj/src/lib";
    assert_eq!(
        Dingus::recursively_walk_upwards_for_dingus_file(here, &vec![true, false, true]),
        Some("/proj/src/lib/.dingus".to_string())
    );
    assert_eq!(
        Dingus::recursively_walk_upwards_for_dingus_file(here, &vec![false, true, true, true]),
        Some("/proj/src/.dingus".to_string())
    );
    assert_eq!(
        Dingus::recursively_walk_upwards_for_dingus_file(here, &vec![false, false, false, true]),
        Some("/.dingus".to_string())
    );
}

#[test]
fn no_marker_is_not_found() {
    assert_eq!(Dingus::recursively_walk_upwards_for_dingus_file("/", &vec![false]), None);
    assert_eq!(Dingus::recursively_walk_upwards_for_dingus_file("/a/b", &vec![]), None);
    assert_eq!(
        Dingus::recursively_walk_upwards_for_dingus_file("/a/b", &vec![false, false, false]),
        None
    );
    assert_eq!(Dingus::candidate_directories("/"), strings(&["/"]));
}

#[test]
fn parents_and_joins() {
    assert_eq!(parent_dir("/a/b/"), Some("/a".to_string()));
    assert_eq!(parent_dir("/a"), Some("/".to_string()));
    assert_eq!(parent_dir("/"), None);
    assert_eq!(parent_dir("name"), None);
    assert_eq!(join_path("/a", "b"), "/a/b");
    assert_eq!(join_path("/a/", "b"), "/a/b");
    assert_eq!(join_path("/a", "/etc/x.yaml"), "/etc/x.yaml");
    assert_eq!(marker_in("/"), "/.dingus");
    assert_eq!(extension_in("/a/b.c/file"), None);
    assert_eq!(extension_in("/a/.dingus"), None);
    assert_eq!(extension_in("/a/x.tar.yml"), Some("yml".to_string()));
}

#[test]
fn both_variants_conflict() {
    let r = Dingus::resolve_config_file("/home/u/.config/dingus", "work", true, true);
    match r {
        Err(Error::ConflictingConfigPaths { one, two }) => {
            assert_eq!(one, "/home/u/.config/dingus/work.yaml");
            assert_eq!(two, "/home/u/.config/dingus/work.yml");
        }
        other => panic!("expected a conflict, got {:?}", other),
    }
}

#[test]
fn single_variant_is_taken() {
    let dir = "/home/u/.config/dingus";
    assert_eq!(
        Dingus::resolve_config_file(dir, "work", true, false).unwrap(),
        "/home/u/.config/dingus/work.yaml"
    );
    assert_eq!(
        Dingus::resolve_config_file(dir, "work", false, true).unwrap(),
        "/home/u/.config/dingus/work.yml"
    );
    assert!(matches!(
        Dingus::resolve_config_file(dir, "work", false, false),
        Err(Error::DingusFileNotFound)
    ));
    let (a, b) = Dingus::config_variants(dir, "work");
    assert_eq!(a, "/home/u/.config/dingus/work.yaml");
    assert_eq!(b, "/home/u/.config/dingus/work.yml");
}

#[test]
fn explicit_extensions() {
    let dir = "/cfg";
    assert_eq!(Dingus::resolve_config_file(dir, "a.yml", false, false).unwrap(), "/cfg/a.yml");
    assert_eq!(Dingus::resolve_config_file(dir, "a.yaml", false, false).unwrap(), "/cfg/a.yaml");
    assert!(matches!(
        Dingus::resolve_config_file(dir, "a.txt", true, true),
        Err(Error::UnrecognizedConfigExtension)
    ));
}

#[test]
fn parsing_keeps_every_pair() {
    let vars = Dingus::parse_dingus_file("A: x\nB: \"\"\nC: 'with space'\n").unwrap();
    assert_eq!(vars.get("A"), Some("x".to_string()));
    assert_eq!(vars.get("B"), Some("".to_string()));
    assert_eq!(vars.get("C"), Some("with space".to_string()));
    assert_eq!(vars.get("D"), None);
    assert_eq!(vars.pairs().len(), 3);
}

#[test]
fn malformed_config_is_refused() {
    assert!(matches!(
        Dingus::parse_dingus_file("- a\n- b\n"),
        Err(Error::SerdeYamlError(_))
    ));
    assert!(matches!(
        Dingus::get_environment("A: [1, 2]\n", &None),
        Err(Error::SerdeYamlError(_))
    ));
}

#[test]
fn level_counts_nesting() {
    let mut vars = VariableMap::new();
    Dingus::set_dingus_level(&mut vars, &Some("4".to_string()));
    assert_eq!(vars.get("DINGUS_LEVEL"), Some("5".to_string()));
    Dingus::set_dingus_level(&mut vars, &Some("abc".to_string()));
    assert_eq!(vars.get("DINGUS_LEVEL"), Some("1".to_string()));
    Dingus::set_dingus_level(&mut vars, &None);
    assert_eq!(vars.get("DINGUS_LEVEL"), Some("1".to_string()));
    Dingus::set_dingus_level(&mut vars, &Some("+7".to_string()));
    assert_eq!(vars.get("DINGUS_LEVEL"), Some("8".to_string()));
    Dingus::set_dingus_level(&mut vars, &Some("4294967295".to_string()));
    assert_eq!(vars.get("DINGUS_LEVEL"), Some("4294967296".to_string()));
    Dingus::set_dingus_level(&mut vars, &Some("4294967296".to_string()));
    assert_eq!(vars.get("DINGUS_LEVEL"), Some("1".to_string()));
    assert_eq!(vars.pairs().len(), 1);
}

#[test]
fn level_overrides_file_value() {
    let env = Dingus::get_environment("DINGUS_LEVEL: \"9\"\nX: y\n", &Some("2".to_string())).unwrap();
    assert_eq!(env.get("DINGUS_LEVEL"), Some("3".to_string()));
    assert_eq!(env.get("X"), Some("y".to_string()));
    assert_eq!(env.pairs().len(), 2);
}

#[test]
fn parse_level_values() {
    assert_eq!(parse_level("0"), Some(0));
    assert_eq!(parse_level("12"), Some(12));
    assert_eq!(parse_level("+3"), Some(3));
    assert_eq!(parse_level(""), None);
    assert_eq!(parse_level("+"), None);
    assert_eq!(parse_level("-1"), None);
    assert_eq!(parse_level("1a"), None);
    assert_eq!(parse_level("4294967295"), Some(4294967295));
    assert_eq!(parse_level("4294967296"), None);
}

#[test]
fn catalog_lists_sorted_configs() {
    let names = strings(&["c.txt", "b.yml", "d", "a.yaml"]);
    assert_eq!(config_files(&names), strings(&["a.yaml", "b.yml"]));
    assert_eq!(config_files(&vec![]), Vec::<String>::new());
    assert_eq!(config_files(&strings(&["x", ".yaml", "y.txt"])), Vec::<String>::new());
    assert_eq!(
        config_files(&strings(&["zz.yml", "B.yaml", "b.yaml", "a.yml"])),
        strings(&["B.yaml", "a.yml", "b.yaml", "zz.yml"])
    );
}

#[test]
fn shells_and_exports() {
    let fish = Shell::from_shell_var("/usr/bin/fish");
    assert!(matches!(fish, Shell::Fish(_)));
    assert_eq!(fish.command(), "fish");
    let bash = Shell::from_shell_var("/bin/bash");
    assert!(matches!(bash, Shell::BashLike(_)));
    assert_eq!(bash.command(), "bash");
    assert_eq!(Shell::from_shell_var("zsh").command(), "zsh");
    assert_eq!(fish.export_statement("K", "v"), "set -gx K \"v\"; ");
    assert_eq!(bash.export_statement("K", "v"), "export K=\"v\"; ");
    let pairs = vec![("A".to_string(), "1".to_string()), ("B".to_string(), "2".to_string())];
    assert_eq!(bash.export_script(&pairs), "export A=\"1\";  export B=\"2\"; ");
    assert_eq!(bash.export_script(&vec![]), "");
}

#[test]
fn choosing_the_file() {
    let given = Dingus::new(
        SubCommand::Print,
        Shell::from_shell_var("bash"),
        "/cfg".to_string(),
        Some("/cfg/a.yaml".to_string()),
    );
    assert_eq!(given.config_file_to_parse(Some("/x/.dingus".to_string())).unwrap(), "/cfg/a.yaml");
    let implicit = Dingus::new(SubCommand::List, Shell::from_shell_var("bash"), "/cfg".to_string(), None);
    assert_eq!(implicit.config_file_to_parse(Some("/x/.dingus".to_string())).unwrap(), "/x/.dingus");
    assert!(matches!(implicit.config_file_to_parse(None), Err(Error::DingusFileNotFound)));
}

#[test]
fn error_messages_name_both_paths() {
    let e = Error::ConflictingConfigPaths { one: "/a.yaml".to_string(), two: "/a.yml".to_string() };
    let m = e.message();
    assert!(m.contains("/a.yaml"));
    assert!(m.contains("/a.yml"));
    assert_eq!(Error::NoSubcommandMatch.message(), "Invalid [SUBCOMMAND] specified");
}
