//! Applicability matching, blacklist filtering and task selection.

use belay::args::HookType;
use belay::ci::{Applicability, Task, Trigger, select_tasks};
use belay::ci::github::applicability_from;
use belay::config::Config;

fn push_to(branch: &str) -> Trigger {
    Trigger::Push { branch: branch.to_string() }
}

#[test]
fn push_applicability_matches_listed_branch() {
    let applicability = Applicability::Push { branches: Some(vec!["main".to_string()]) };
    assert!(applicability.is_triggered_by(&push_to("main")));
    assert!(!applicability.is_triggered_by(&push_to("dev")));
}

#[test]
fn push_applicability_without_branches_matches_any_push() {
    let applicability = Applicability::Push { branches: None };
    assert!(applicability.is_triggered_by(&push_to("main")));
    assert!(applicability.is_triggered_by(&push_to("anything")));
    assert!(!applicability.is_triggered_by(&Trigger::PullRequest));
}

#[test]
fn pull_request_applicability_matches_only_pull_requests() {
    let applicability = Applicability::PullRequest;
    assert!(applicability.is_triggered_by(&Trigger::PullRequest));
    assert!(!applicability.is_triggered_by(&push_to("main")));
}

#[test]
fn any_applicability_matches_every_trigger() {
    let applicability = Applicability::Any;
    assert!(applicability.is_triggered_by(&push_to("main")));
    assert!(applicability.is_triggered_by(&Trigger::PullRequest));
}

#[test]
fn any_task_is_selected_under_every_non_empty_trigger_set() {
    let config = Config::default();
    for triggers in [
        vec![push_to("main")],
        vec![Trigger::PullRequest],
        vec![push_to("dev"), Trigger::PullRequest],
    ] {
        let task = Task::new(None, "echo hello".to_string(), vec![Applicability::Any]);
        let selected = select_tasks(vec![task], &config, &triggers);
        assert_eq!(1, selected.len());
    }
}

#[test]
fn no_task_is_selected_under_an_empty_trigger_set() {
    let config = Config::default();
    let task = Task::new(None, "echo hello".to_string(), vec![Applicability::Any]);
    let selected = select_tasks(vec![task], &config, &vec![]);
    assert_eq!(0, selected.len());
}

#[test]
fn blacklisted_commands_are_excluded_and_others_retained() {
    let config = Config::default();
    let triggers = vec![push_to("main")];
    let tasks = vec![
        Task::new(None, "cargo build".to_string(), vec![Applicability::Any]),
        Task::new(None, "sudo apt install -y nasm".to_string(), vec![Applicability::Any]),
        Task::new(None, "cargo install cargo-audit".to_string(), vec![Applicability::Any]),
        Task::new(None, "chown root target".to_string(), vec![Applicability::Any]),
        Task::new(None, "rustup component add clippy".to_string(), vec![Applicability::Any]),
        Task::new(None, "cargo test".to_string(), vec![Applicability::Any]),
    ];
    let selected = select_tasks(tasks, &config, &triggers);
    assert_eq!(2, selected.len());
    assert_eq!("cargo build", &selected[0].command);
    assert_eq!("cargo test", &selected[1].command);
}

#[test]
fn branch_narrowed_task_is_selected_only_on_that_branch() {
    let config = Config::default();
    let applicability = vec![Applicability::Push { branches: Some(vec!["main".to_string()]) }];
    let task = Task::new(None, "cargo build".to_string(), applicability);
    let selected = select_tasks(vec![task], &config, &vec![push_to("main")]);
    assert_eq!(1, selected.len());

    let applicability = vec![Applicability::Push { branches: Some(vec!["main".to_string()]) }];
    let task = Task::new(None, "cargo build".to_string(), applicability);
    let selected = select_tasks(vec![task], &config, &vec![push_to("dev")]);
    assert_eq!(0, selected.len());
}

#[test]
fn task_with_empty_applicability_is_never_selected() {
    let config = Config::default();
    let task = Task::new(None, "cargo build".to_string(), vec![]);
    let selected = select_tasks(vec![task], &config, &vec![push_to("main")]);
    assert_eq!(0, selected.len());
}

#[test]
fn default_config_blacklist_holds_the_four_patterns() {
    let config = Config::default();
    assert_eq!(
        vec![
            "apt install".to_string(),
            "cargo install".to_string(),
            "chown".to_string(),
            "rustup component add".to_string(),
        ],
        config.command_blacklist
    );
}

#[test]
fn display_name_prefers_the_task_name() {
    let named = Task::new(
        Some("Build".to_string()),
        "cargo build".to_string(),
        vec![Applicability::Any],
    );
    assert_eq!("Build", &named.display_name());

    let nameless = Task::new(None, "cargo build".to_string(), vec![Applicability::Any]);
    assert_eq!("cargo build", &nameless.display_name());
}

#[test]
fn hook_type_filenames() {
    assert_eq!("pre-commit", &HookType::Commit.filename());
    assert_eq!("pre-push", &HookType::Push.filename());
}

#[test]
fn applicability_from_recognizes_the_two_trigger_names() {
    let push = applicability_from("push", Some(vec!["main".to_string()]));
    match push {
        Ok(Applicability::Push { branches: Some(branches) }) => {
            assert_eq!(vec!["main".to_string()], branches);
        },
        _ => panic!("expected a push applicability with branches"),
    }

    let pull_request = applicability_from("pull_request", None);
    assert!(matches!(pull_request, Ok(Applicability::PullRequest)));

    let unknown = applicability_from("workflow_dispatch", None);
    assert!(matches!(unknown, Err(())));
}
