use orage::config::{ArgStep, ConfigIterator, missing_path_notice};

fn strings(v: &[&str]) -> Vec<String> {
    v.iter().map(|s| s.to_string()).collect()
}

fn arg(step: ArgStep) -> Option<String> {
    match step {
        ArgStep::Arg(a) => Some(a),
        _ => None,
    }
}

#[test]
fn plain_arguments_come_out_in_order() {
    let mut it = ConfigIterator::new(&strings(&["oraged", "--port", "9735"]));
    assert_eq!(arg(it.next_step()), Some("oraged".to_string()));
    assert_eq!(arg(it.next_step()), Some("--port".to_string()));
    assert_eq!(arg(it.next_step()), Some("9735".to_string()));
    assert!(matches!(it.next_step(), ArgStep::Finished));
    assert!(matches!(it.next_step(), ArgStep::Finished));
}

#[test]
fn inline_config_names_the_second_field() {
    let mut it = ConfigIterator::new(&strings(&["oraged", "--config=node.toml", "--x"]));
    assert_eq!(arg(it.next_step()), Some("oraged".to_string()));
    match it.next_step() {
        ArgStep::LoadConfig(p) => assert_eq!(p, "node.toml"),
        _ => panic!("expected a configuration file"),
    }
    let first = it.resume_with_configs(strings(&["--a=1", "--b=2"]));
    assert_eq!(first, Some("--a=1".to_string()));
    assert_eq!(arg(it.next_step()), Some("--b=2".to_string()));
    assert_eq!(arg(it.next_step()), Some("--x".to_string()));
    assert!(matches!(it.next_step(), ArgStep::Finished));
}

#[test]
fn inline_config_path_stops_at_the_next_equals_sign() {
    let mut it = ConfigIterator::new(&strings(&["--configfile=a.toml=b"]));
    match it.next_step() {
        ArgStep::LoadConfig(p) => assert_eq!(p, "a.toml"),
        _ => panic!("expected a configuration file"),
    }
    let mut it = ConfigIterator::new(&strings(&["--config="]));
    match it.next_step() {
        ArgStep::LoadConfig(p) => assert_eq!(p, ""),
        _ => panic!("expected a configuration file"),
    }
}

#[test]
fn short_option_takes_the_next_argument_as_path() {
    let mut it = ConfigIterator::new(&strings(&["-f", "node.toml", "--y"]));
    match it.next_step() {
        ArgStep::LoadConfig(p) => assert_eq!(p, "node.toml"),
        _ => panic!("expected a configuration file"),
    }
    let next = it.resume_with_configs(Vec::new());
    assert_eq!(next, Some("--y".to_string()));
    assert!(matches!(it.next_step(), ArgStep::Finished));
}

#[test]
fn short_option_without_path_is_yielded_with_a_notice() {
    let mut it = ConfigIterator::new(&strings(&["oraged", "-f"]));
    assert_eq!(arg(it.next_step()), Some("oraged".to_string()));
    match it.next_step() {
        ArgStep::MissingConfigPath(a) => assert_eq!(a, "-f"),
        _ => panic!("expected a missing path"),
    }
    assert_eq!(missing_path_notice(), "--config must be followed by a path");
    assert!(matches!(it.next_step(), ArgStep::Finished));
}

#[test]
fn first_file_argument_is_not_expanded_again() {
    let mut it = ConfigIterator::new(&strings(&["--config=a.toml"]));
    assert!(matches!(it.next_step(), ArgStep::LoadConfig(_)));
    let first = it.resume_with_configs(strings(&["--config=b.toml", "--config=c.toml"]));
    assert_eq!(first, Some("--config=b.toml".to_string()));
    match it.next_step() {
        ArgStep::LoadConfig(p) => assert_eq!(p, "c.toml"),
        _ => panic!("expected a configuration file"),
    }
    assert_eq!(it.resume_with_configs(Vec::new()), None);
}

#[test]
fn front_check_flags_inline_config_without_equals() {
    let it = ConfigIterator::new(&strings(&["--config", "x"]));
    assert!(!it.front_is_well_formed());
    let it = ConfigIterator::new(&strings(&["--config=x"]));
    assert!(it.front_is_well_formed());
    let mut it = ConfigIterator::new(&strings(&["a", "--configx"]));
    assert!(it.front_is_well_formed());
    let _ = it.next_step();
    assert!(!it.front_is_well_formed());
}

#[test]
fn do_next_walks_across_lists() {
    let mut stack = vec![Vec::new(), strings(&["a"]), Vec::new(), strings(&["b", "c"])];
    assert_eq!(ConfigIterator::do_next(&mut stack), Some("a".to_string()));
    assert_eq!(ConfigIterator::do_next(&mut stack), Some("b".to_string()));
    assert_eq!(ConfigIterator::do_next(&mut stack), Some("c".to_string()));
    assert_eq!(ConfigIterator::do_next(&mut stack), None);
    assert!(stack.is_empty());
}

#[test]
fn do_next_keeps_the_stack_shape() {
    let mut stack = vec![Vec::new(), strings(&["a", "b"]), strings(&["c"])];
    assert_eq!(ConfigIterator::do_next(&mut stack), Some("a".to_string()));
    assert_eq!(stack, vec![strings(&["b"]), strings(&["c"])]);
    let mut stack = vec![strings(&["x"])];
    assert_eq!(ConfigIterator::do_next(&mut stack), Some("x".to_string()));
    assert_eq!(stack, vec![Vec::<String>::new()]);
    let mut stack = vec![Vec::<String>::new(), Vec::<String>::new()];
    assert_eq!(ConfigIterator::do_next(&mut stack), None);
    assert!(stack.is_empty());
}

#[test]
fn run_of_takes_goes_front_to_back_then_none() {
    let mut stack = vec![strings(&["a"]), Vec::new(), strings(&["b", "c"])];
    let mut got = Vec::new();
    for _ in 0..6 {
        got.push(ConfigIterator::do_next(&mut stack));
    }
    assert_eq!(
        got,
        vec![Some("a".to_string()), Some("b".to_string()), Some("c".to_string()), None, None, None]
    );
}
