use githops::check::{build_execution_waves, validate_depends_pub, CycleFinder};
use githops::config::Command;
use githops::namemap::NameMap;
use githops::waves::wave_indices;

fn cmd(name: &str, depends: &[&str]) -> Command {
    Command {
        name: name.to_string(),
        run: format!("echo {}", name),
        depends: depends.iter().map(|s| s.to_string()).collect(),
        env: NameMap::new(),
        test: false,
        cache: None,
    }
}

#[test]
fn test_waves_no_dependencies_all_in_one_wave() {
    let cmds = vec![cmd("a", &[]), cmd("b", &[]), cmd("c", &[])];
    let waves = build_execution_waves(&cmds).unwrap();
    assert_eq!(waves.len(), 1);
    assert_eq!(waves[0].len(), 3);
}

#[test]
fn test_waves_empty_commands() {
    let cmds: Vec<Command> = vec![];
    let waves = build_execution_waves(&cmds).unwrap();
    assert!(waves.is_empty());
}

#[test]
fn test_waves_linear_chain() {
    let cmds = vec![cmd("a", &[]), cmd("b", &["a"]), cmd("c", &["b"])];
    let waves = build_execution_waves(&cmds).unwrap();
    assert_eq!(waves.len(), 3);
    assert_eq!(waves[0][0].name, "a");
    assert_eq!(waves[1][0].name, "b");
    assert_eq!(waves[2][0].name, "c");
}

#[test]
fn test_waves_diamond_dag() {
    let cmds = vec![cmd("a", &[]), cmd("b", &["a"]), cmd("c", &["a"]), cmd("d", &["b", "c"])];
    let waves = build_execution_waves(&cmds).unwrap();
    assert_eq!(waves.len(), 3);
    assert_eq!(waves[0].len(), 1);
    assert_eq!(waves[1].len(), 2);
    assert_eq!(waves[2].len(), 1);
}

#[test]
fn test_waves_detects_cycle() {
    let cmds = vec![cmd("a", &["b"]), cmd("b", &["a"])];
    let result = build_execution_waves(&cmds);
    assert!(result.is_err());
    let msg = result.unwrap_err().message();
    assert!(msg.contains("Circular") || msg.contains("circular") || msg.contains("cycle"));
}

#[test]
fn test_waves_single_command_no_deps() {
    let cmds = vec![cmd("lint", &[])];
    let waves = build_execution_waves(&cmds).unwrap();
    assert_eq!(waves.len(), 1);
    assert_eq!(waves[0][0].name, "lint");
}

#[test]
fn test_waves_mixed_independent_and_dependent() {
    let cmds = vec![cmd("a", &[]), cmd("b", &[]), cmd("c", &["a"])];
    let waves = build_execution_waves(&cmds).unwrap();
    assert_eq!(waves.len(), 2);
    let wave0_names: Vec<&str> = waves[0].iter().map(|c| c.name.as_str()).collect();
    assert!(wave0_names.contains(&"a"));
    assert!(wave0_names.contains(&"b"));
    assert_eq!(waves[1][0].name, "c");
}

#[test]
fn test_waves_self_cycle_is_detected() {
    let cmds = vec![cmd("a", &["a"])];
    let result = build_execution_waves(&cmds);
    assert!(result.is_err());
}

#[test]
fn test_cycle_finder_finds_simple_cycle() {
    let cmds = vec![cmd("a", &["b"]), cmd("b", &["a"])];
    let mut finder = CycleFinder::new(&cmds);
    let cycle = finder.find();
    assert!(cycle.contains(&"a".to_string()) || cycle.contains(&"b".to_string()));
    assert_eq!(cycle.first(), cycle.last());
}

#[test]
fn test_cycle_finder_finds_longer_cycle() {
    let cmds = vec![cmd("a", &["c"]), cmd("b", &["a"]), cmd("c", &["b"])];
    let mut finder = CycleFinder::new(&cmds);
    let cycle = finder.find();
    assert!(cycle.len() >= 4);
    assert_eq!(cycle.first(), cycle.last());
}

#[test]
fn test_validate_depends_pub_valid_chain() {
    let cmds = vec![cmd("a", &[]), cmd("b", &["a"]), cmd("c", &["b"])];
    assert!(validate_depends_pub(&cmds).is_ok());
}

#[test]
fn test_validate_depends_pub_unknown_dep_errors() {
    let cmds = vec![cmd("b", &["nonexistent"])];
    let result = validate_depends_pub(&cmds);
    assert!(result.is_err());
    assert!(result.unwrap_err().message().contains("nonexistent"));
}

#[test]
fn test_validate_depends_pub_self_dep_errors() {
    let cmds = vec![cmd("a", &["a"])];
    let result = validate_depends_pub(&cmds);
    assert!(result.is_err());
    assert!(result.unwrap_err().message().contains("itself"));
}

#[test]
fn waves_keep_the_listed_order_within_a_wave() {
    let cmds = vec![cmd("z", &[]), cmd("y", &["z"]), cmd("x", &[]), cmd("w", &["x", "z"])];
    let waves = build_execution_waves(&cmds).unwrap();
    let names: Vec<Vec<&str>> = waves.iter().map(|w| w.iter().map(|c| c.name.as_str()).collect()).collect();
    assert_eq!(names, vec![vec!["z", "x"], vec!["y", "w"]]);
}

#[test]
fn cycle_error_message_lists_the_cycle() {
    let cmds = vec![cmd("a", &["b"]), cmd("b", &["a"])];
    let err = build_execution_waves(&cmds).unwrap_err();
    assert_eq!(err.cycle, vec!["a", "b", "a"]);
    assert_eq!(err.message(), "Circular dependency detected among hook commands:\n  a \u{2192} b \u{2192} a");
}

#[test]
fn cycle_finder_reports_marker_without_cycle() {
    let cmds = vec![cmd("a", &[]), cmd("b", &["a"])];
    let mut finder = CycleFinder::new(&cmds);
    assert_eq!(finder.find(), vec!["<cycle not reconstructed>".to_string()]);
}

#[test]
fn wave_indices_of_a_graph() {
    let deps = vec![vec![], vec![0], vec![0], vec![1, 2]];
    assert_eq!(wave_indices(&deps), Some(vec![vec![0], vec![1, 2], vec![3]]));
    let cyclic = vec![vec![1], vec![0], vec![]];
    assert_eq!(wave_indices(&cyclic), None);
}

#[test]
fn cycle_finder_reports_a_simple_cycle() {
    let cmds = vec![cmd("a", &["b"]), cmd("b", &["a"])];
    assert_eq!(CycleFinder::new(&cmds).find(), vec!["a", "b", "a"]);
    let cmds = vec![cmd("a", &["c"]), cmd("b", &["a"]), cmd("c", &["b"]), cmd("d", &["a"])];
    let cycle = CycleFinder::new(&cmds).find();
    assert_eq!(cycle, vec!["a", "c", "b", "a"]);
    let inner = &cycle[..cycle.len() - 1];
    for (i, x) in inner.iter().enumerate() {
        assert!(!inner[i + 1..].contains(x));
    }
}
