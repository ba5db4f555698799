//! Parsing the two provider formats from YAML text.

use belay::ci::github;
use belay::ci::TaskList;
use belay::ci::gitlab;

const GITHUB_PARSE_CHECK: &str = "name: Rust

on:
  - push
  - pull_request

jobs:
  build:
    steps:
      - uses: actions/checkout@v2
      - name: Build
        run: cargo build --verbose
      - name: Run tests
        run: cargo test --verbose
      - name: Check formatting
        run: cargo fmt -- --check
      - name: Clippy
        run: cargo clippy
      - name: Docs
        run: cargo doc
";

const GITHUB_PARSE_CHECK_ON_PUSH_TO_BRANCH: &str = "name: Rust

on:
  push:
    branches:
      - main
  pull_request:

jobs:
  build:
    steps:
      - name: Build
        run: cargo build --verbose
";

const GITLAB_PARSE_CHECK: &str = "image: rust:latest

stages:
  - build
  - test

cache:
  paths:
    - target/

build:
  stage: build
  script:
    - cargo build --verbose

test:
  stage: test
  script:
    - cargo test --verbose
    - cargo fmt -- --check
    - cargo clippy
    - cargo doc
";

#[test]
fn parse_github_yaml() {
    let github_yaml = GITHUB_PARSE_CHECK;

    let github_ci_config = match github::CiConfig::try_from(github_yaml) {
        Ok(config) => config,
        Err(e) => panic!("{}", e.message()),
    };

    assert_eq!("Rust", &github_ci_config.name);

    assert_eq!(1, github_ci_config.jobs.len());

    let (job_name, job) = &github_ci_config.jobs[0];
    assert_eq!("build", job_name);

    // the `uses` step is skipped during parsing
    assert_eq!(5, job.steps.len());

    assert_eq!(2, github_ci_config.on.len());
}

#[test]
fn parse_github_yaml_push_to_branch() {
    let github_yaml = GITHUB_PARSE_CHECK_ON_PUSH_TO_BRANCH;

    let github_ci_config = match github::CiConfig::try_from(github_yaml) {
        Ok(config) => config,
        Err(e) => panic!("{}", e.message()),
    };

    assert_eq!(2, github_ci_config.on.len());
}

#[test]
fn parse_gitlab_yaml() {
    let gitlab_yaml = GITLAB_PARSE_CHECK;

    let gitlab_ci_config = match gitlab::CiConfig::try_from(gitlab_yaml) {
        Ok(config) => config,
        Err(e) => panic!("{}", e.message()),
    };

    let mut total = 0;
    for (_job_name, job) in &gitlab_ci_config.jobs {
        if let Some(script) = &job.script {
            total += script.len();
        }
    }
    assert_eq!(5, total);
}

#[test]
fn parse_github_missing_name_is_missing_field() {
    let github_yaml = "jobs:\n  build:\n    steps:\n      - run: cargo build\n";
    let result = github::CiConfig::try_from(github_yaml);
    assert!(matches!(result, Err(github::YamlParseError::MissingField)));
}

#[test]
fn parse_github_missing_jobs_is_missing_field() {
    let github_yaml = "name: Rust\n";
    let result = github::CiConfig::try_from(github_yaml);
    assert!(matches!(result, Err(github::YamlParseError::MissingField)));
}

#[test]
fn parse_github_job_without_steps_is_missing_field() {
    let github_yaml = "name: Rust\njobs:\n  build:\n    badge: true\n";
    let result = github::CiConfig::try_from(github_yaml);
    assert!(matches!(result, Err(github::YamlParseError::MissingField)));
}

#[test]
fn parse_github_empty_input_is_missing_document() {
    let result = github::CiConfig::try_from("");
    assert!(matches!(result, Err(github::YamlParseError::MissingDocument)));
}

#[test]
fn parse_github_malformed_input_is_scan_error() {
    let result = github::CiConfig::try_from("name: [unclosed");
    match result {
        Err(github::YamlParseError::ScanError(message)) => {
            assert!(!message.is_empty());
        },
        _ => panic!("expected a scan error"),
    }
}

#[test]
fn parse_github_unknown_trigger_names_are_dropped() {
    let github_yaml = "name: Rust

on:
  - push
  - workflow_dispatch

jobs:
  build:
    steps:
      - run: cargo build
";
    let config = match github::CiConfig::try_from(github_yaml) {
        Ok(config) => config,
        Err(e) => panic!("{}", e.message()),
    };
    assert_eq!(1, config.on.len());
}

#[test]
fn parse_github_unrecognized_on_shape_gives_empty_applicability() {
    let github_yaml = "name: Rust

on: push

jobs:
  build:
    steps:
      - run: cargo build
";
    let config = match github::CiConfig::try_from(github_yaml) {
        Ok(config) => config,
        Err(e) => panic!("{}", e.message()),
    };
    assert_eq!(0, config.on.len());
}

#[test]
fn parse_gitlab_empty_input_is_missing_document() {
    let result = gitlab::CiConfig::try_from("");
    assert!(matches!(result, Err(github::YamlParseError::MissingDocument)));
}

#[test]
fn parse_gitlab_scalar_document_is_missing_field() {
    let result = gitlab::CiConfig::try_from("just a scalar string");
    assert!(matches!(result, Err(github::YamlParseError::MissingField)));
}

#[test]
fn parse_gitlab_job_with_non_text_script_is_missing_field() {
    let gitlab_yaml = "test:\n  script: 5\n";
    let result = gitlab::CiConfig::try_from(gitlab_yaml);
    assert!(matches!(result, Err(github::YamlParseError::MissingField)));
}

#[test]
fn parse_github_twice_yields_identical_task_lists() {
    let first = match github::CiConfig::try_from(GITHUB_PARSE_CHECK) {
        Ok(config) => config,
        Err(e) => panic!("{}", e.message()),
    };
    let second = match github::CiConfig::try_from(GITHUB_PARSE_CHECK) {
        Ok(config) => config,
        Err(e) => panic!("{}", e.message()),
    };

    let first_tasks = first.all_tasks();
    let second_tasks = second.all_tasks();
    assert_eq!(first_tasks.len(), second_tasks.len());
    for i in 0..first_tasks.len() {
        assert_eq!(first_tasks[i].name, second_tasks[i].name);
        assert_eq!(first_tasks[i].command, second_tasks[i].command);
        assert_eq!(
            first_tasks[i].applicability.len(),
            second_tasks[i].applicability.len()
        );
    }
}

#[test]
fn parse_gitlab_twice_yields_identical_task_lists() {
    let first = match gitlab::CiConfig::try_from(GITLAB_PARSE_CHECK) {
        Ok(config) => config,
        Err(e) => panic!("{}", e.message()),
    };
    let second = match gitlab::CiConfig::try_from(GITLAB_PARSE_CHECK) {
        Ok(config) => config,
        Err(e) => panic!("{}", e.message()),
    };

    let first_tasks = first.all_tasks();
    let second_tasks = second.all_tasks();
    assert_eq!(first_tasks.len(), second_tasks.len());
    for i in 0..first_tasks.len() {
        assert_eq!(first_tasks[i].name, second_tasks[i].name);
        assert_eq!(first_tasks[i].command, second_tasks[i].command);
    }
}
