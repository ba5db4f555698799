//! End-to-end plans: provider precedence, de-duplication, triggers.

use belay::ci::{Applicability, Task, TaskList, Trigger};
use belay::config::Config;
use belay::run::{CiError, dedup_tasks, get_triggers, has_upstream, plan_run};

fn push_main() -> Vec<Trigger> {
    vec![Trigger::Push { branch: "main".to_string() }]
}

#[test]
fn github_workflow_with_a_run_less_step_and_a_blacklisted_step() {
    let github_yaml = "name: Rust

on:
  - push

jobs:
  build:
    steps:
      - uses: actions/checkout@v2
      - run: cargo build
      - run: cargo test
      - run: sudo apt install -y nasm
      - run: cargo fmt
      - run: cargo clippy
";
    let config = match belay::ci::github::CiConfig::try_from(github_yaml) {
        Ok(config) => config,
        Err(e) => panic!("{}", e.message()),
    };
    // six steps, one without `run`
    assert_eq!(5, config.all_tasks().len());
    // of the remaining five, one holds "apt install"
    let selected = config.tasks(&Config::default(), &push_main());
    assert_eq!(4, selected.len());
}

#[test]
fn gitlab_file_with_two_blacklisted_script_entries() {
    let gitlab_yaml = "test:
  script:
    - cargo build
    - rustup component add clippy
    - cargo clippy
    - rustup component add rustfmt
    - cargo fmt
";
    let plan = match plan_run(
        &vec![],
        &Some(gitlab_yaml.to_string()),
        &Config::default(),
        &push_main(),
    ) {
        Ok(plan) => plan,
        Err(_) => panic!("expected a plan"),
    };
    assert_eq!(3, plan.len());
    assert_eq!("cargo build", &plan[0].command);
    assert_eq!("cargo clippy", &plan[1].command);
    assert_eq!("cargo fmt", &plan[2].command);
}

#[test]
fn no_configuration_at_all_fails_the_run() {
    let result = plan_run(&vec![], &None, &Config::default(), &push_main());
    assert!(matches!(result, Err(CiError::NoCiConfigurationFound)));
}

#[test]
fn unparsable_github_falls_back_to_gitlab() {
    let bad_github = "name: Rust\n".to_string();
    let gitlab_yaml = "test:\n  script:\n    - cargo test\n".to_string();
    let plan = match plan_run(
        &vec![bad_github],
        &Some(gitlab_yaml),
        &Config::default(),
        &push_main(),
    ) {
        Ok(plan) => plan,
        Err(_) => panic!("expected a plan"),
    };
    assert_eq!(1, plan.len());
    assert_eq!("cargo test", &plan[0].command);
}

#[test]
fn unparsable_github_without_gitlab_fails_the_run() {
    let bad_github = "name: Rust\n".to_string();
    let result = plan_run(&vec![bad_github], &None, &Config::default(), &push_main());
    assert!(matches!(result, Err(CiError::NoCiConfigurationFound)));
}

#[test]
fn identical_commands_across_configs_run_once() {
    let first = "name: First

on:
  - push

jobs:
  build:
    steps:
      - run: cargo build
      - run: cargo test
";
    let second = "name: Second

on:
  - push

jobs:
  check:
    steps:
      - run: cargo build
      - run: cargo clippy
";
    let plan = match plan_run(
        &vec![first.to_string(), second.to_string()],
        &None,
        &Config::default(),
        &push_main(),
    ) {
        Ok(plan) => plan,
        Err(_) => panic!("expected a plan"),
    };
    assert_eq!(3, plan.len());
    assert_eq!("cargo build", &plan[0].command);
    assert_eq!("cargo test", &plan[1].command);
    assert_eq!("cargo clippy", &plan[2].command);
}

#[test]
fn dedup_keeps_first_occurrences_in_order() {
    let tasks = vec![
        Task::new(Some("a".to_string()), "echo one".to_string(), vec![Applicability::Any]),
        Task::new(Some("b".to_string()), "echo two".to_string(), vec![Applicability::Any]),
        Task::new(Some("c".to_string()), "echo one".to_string(), vec![Applicability::Any]),
        Task::new(Some("d".to_string()), "echo one".to_string(), vec![Applicability::Any]),
    ];
    let deduped = dedup_tasks(tasks);
    assert_eq!(2, deduped.len());
    assert_eq!(Some("a".to_string()), deduped[0].name);
    assert_eq!("echo one", &deduped[0].command);
    assert_eq!(Some("b".to_string()), deduped[1].name);
    assert_eq!("echo two", &deduped[1].command);
}

#[test]
fn triggers_reflect_branch_and_upstream() {
    let triggers = get_triggers("main".to_string(), false);
    assert_eq!(1, triggers.len());
    match &triggers[0] {
        Trigger::Push { branch } => assert_eq!("main", branch),
        Trigger::PullRequest => panic!("expected a push trigger"),
    }

    let triggers = get_triggers("dev".to_string(), true);
    assert_eq!(2, triggers.len());
    assert!(matches!(&triggers[1], Trigger::PullRequest));
}

#[test]
fn upstream_is_recognized_in_remote_output() {
    assert!(has_upstream("origin\nupstream\n"));
    assert!(!has_upstream("origin\n"));
    assert!(!has_upstream(""));
}

#[test]
fn ci_error_message_text() {
    assert_eq!(
        "Unable to find CI configuration",
        &CiError::NoCiConfigurationFound.message()
    );
}
