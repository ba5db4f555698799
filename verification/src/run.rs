//! The execution orchestrator's decisions: which provider's configurations
//! drive a run, the cross-configuration de-duplication of commands, and the
//! triggers of the local git event.
//!
//! Running the commands, finding the files and asking git about the
//! repository are I/O and live with the binary; this module turns their
//! answers into the ordered execution plan.

use vstd::prelude::*;
use crate::ci::{
    Task,
    TaskView,
    TaskList,
    Trigger,
    TriggerView,
    github,
    gitlab,
    github_all_tasks,
    gitlab_all_tasks,
    spec_select,
    views_of_tasks,
    views_of_triggers,
};
use crate::config::Config;
use crate::text::{contains_string, contains_substring, is_substring_of, views_of_strings};

verus! {

/// Why a run could not even start.
pub enum CiError {
    /// Neither provider's configuration could be found and parsed.
    NoCiConfigurationFound,
}

impl CiError {
    /// The error rendered for the user.
    pub fn message(&self) -> (r: String)
        ensures
            r@ == "Unable to find CI configuration"@,
    {
        "Unable to find CI configuration".to_owned()
    }
}

/// Whether some task before `upto` has exactly this command text.
pub open spec fn command_seen(tasks: Seq<TaskView>, upto: int, command: Seq<char>) -> bool {
    exists|j: int| 0 <= j < upto && #[trigger] tasks[j].command == command
}

/// The de-duplicated task sequence: a task stays exactly when no earlier
/// task has the same command text; names play no part.
pub open spec fn spec_dedup(tasks: Seq<TaskView>) -> Seq<TaskView>
    decreases tasks.len(),
{
    if tasks.len() == 0 {
        Seq::empty()
    } else {
        let rest = spec_dedup(tasks.drop_last());
        if command_seen(tasks, tasks.len() - 1, tasks.last().command) {
            rest
        } else {
            rest.push(tasks.last())
        }
    }
}

/// Drops every task whose exact command text already occurred earlier in
/// the plan, keeping first occurrences and their order.
pub fn dedup_tasks(tasks: Vec<Task>) -> (r: Vec<Task>)
    ensures
        views_of_tasks(r@) == spec_dedup(views_of_tasks(tasks@)),
{
    let ghost all_views = views_of_tasks(tasks@);
    let mut out: Vec<Task> = Vec::new();
    let mut completed_commands: Vec<String> = Vec::new();
    proof {
        assert(views_of_tasks(out@) =~= spec_dedup(all_views.take(0)));
    }
    let mut remaining = tasks;
    let mut i: usize = 0;
    while i < remaining.len()
        invariant
            0 <= i <= remaining@.len(),
            all_views == views_of_tasks(remaining@),
            all_views.len() == remaining@.len(),
            views_of_tasks(out@) == spec_dedup(all_views.take(i as int)),
            forall|k: int|
                0 <= k < completed_commands@.len() ==> command_seen(
                    all_views,
                    i as int,
                    #[trigger] completed_commands@[k]@,
                ),
            forall|j: int|
                0 <= j < i ==> views_of_strings(completed_commands@).contains(
                    #[trigger] all_views[j].command,
                ),
        decreases remaining@.len() - i,
    {
        let ghost out_prev = out@;
        proof {
            assert(all_views[i as int] == remaining@[i as int]@);
            assert(all_views.take(i + 1).drop_last() =~= all_views.take(i as int));
            assert(all_views.take(i + 1).last() == all_views[i as int]);
        }
        let seen = contains_string(&completed_commands, &remaining[i].command);
        proof {
            if seen {
                let k = choose|k: int|
                    0 <= k < views_of_strings(completed_commands@).len() && views_of_strings(
                        completed_commands@,
                    )[k] == remaining@[i as int]@.command;
                assert(command_seen(all_views, i as int, completed_commands@[k]@));
                assert(command_seen(all_views, i as int, all_views[i as int].command));
            } else {
                if command_seen(all_views, i as int, all_views[i as int].command) {
                    let j = choose|j: int|
                        0 <= j < i && all_views[j].command == all_views[i as int].command;
                    assert(views_of_strings(completed_commands@).contains(all_views[j].command));
                    assert(false);
                }
            }
        }
        if !seen {
            let ghost completed_prev = completed_commands@;
            completed_commands.push(remaining[i].command.clone());
            let task = crate::ci::clone_task(&remaining[i]);
            out.push(task);
            proof {
                assert(completed_commands@.last()@ == all_views[i as int].command);
                assert(!command_seen(all_views.take(i + 1), i as int, all_views[i as int].command))
                    by {
                    if command_seen(all_views.take(i + 1), i as int, all_views[i as int].command) {
                        let j = choose|j: int|
                            0 <= j < i && #[trigger] all_views.take(i + 1)[j].command
                                == all_views[i as int].command;
                        assert(all_views[j].command == all_views[i as int].command);
                        assert(command_seen(all_views, i as int, all_views[i as int].command));
                    }
                }
                assert(views_of_tasks(out@) =~= views_of_tasks(out_prev).push(
                    all_views[i as int],
                ));
                assert(views_of_tasks(out@) =~= spec_dedup(all_views.take(i + 1)));
                assert forall|k: int|
                    0 <= k < completed_commands@.len() implies command_seen(
                    all_views,
                    i + 1,
                    #[trigger] completed_commands@[k]@,
                ) by {
                    if k < completed_commands@.len() - 1 {
                        assert(completed_commands@[k] == completed_prev[k]);
                        assert(command_seen(all_views, i as int, completed_prev[k]@));
                        let j = choose|j: int|
                            0 <= j < i && #[trigger] all_views[j].command == completed_prev[k]@;
                        assert(all_views[j].command == completed_commands@[k]@);
                    } else {
                        assert(all_views[i as int].command == completed_commands@[k]@);
                    }
                }
                assert forall|j: int|
                    0 <= j < i + 1 implies views_of_strings(completed_commands@).contains(
                    #[trigger] all_views[j].command,
                ) by {
                    if j < i {
                        assert(views_of_strings(completed_prev).contains(all_views[j].command));
                        let k = choose|k: int|
                            0 <= k < views_of_strings(completed_prev).len() && views_of_strings(
                                completed_prev,
                            )[k] == all_views[j].command;
                        assert(views_of_strings(completed_commands@)[k]
                            == all_views[j].command);
                    } else {
                        let last = completed_commands@.len() - 1;
                        assert(views_of_strings(completed_commands@)[last]
                            == all_views[i as int].command);
                    }
                }
            }
        } else {
            proof {
                let j0 = choose|j: int|
                    0 <= j < i && #[trigger] all_views[j].command == all_views[i as int].command;
                assert(all_views.take(i + 1)[j0].command == all_views[i as int].command);
                assert(command_seen(
                    all_views.take(i + 1),
                    i as int,
                    all_views.take(i + 1).last().command,
                ));
                assert(views_of_tasks(out@) =~= spec_dedup(all_views.take(i + 1)));
                assert forall|j: int|
                    0 <= j < i + 1 implies views_of_strings(completed_commands@).contains(
                    #[trigger] all_views[j].command,
                ) by {
                    if j == i {
                        assert(views_of_strings(completed_commands@).contains(
                            remaining@[i as int].command@,
                        ));
                    }
                }
            }
        }
        i = i + 1;
    }
    proof {
        assert(all_views.take(all_views.len() as int) =~= all_views);
    }
    out
}

proof fn lemma_dedup_commands_come_from(tasks: Seq<TaskView>)
    ensures
        forall|k: int|
            0 <= k < spec_dedup(tasks).len() ==> command_seen(
                tasks,
                tasks.len() as int,
                #[trigger] spec_dedup(tasks)[k].command,
            ),
    decreases tasks.len(),
{
    if tasks.len() > 0 {
        let prefix = tasks.drop_last();
        lemma_dedup_commands_come_from(prefix);
        let d = spec_dedup(tasks);
        let rest = spec_dedup(prefix);
        assert forall|k: int|
            0 <= k < d.len() implies command_seen(
            tasks,
            tasks.len() as int,
            #[trigger] d[k].command,
        ) by {
            if k < rest.len() {
                assert(d[k] == rest[k]);
                assert(command_seen(prefix, prefix.len() as int, rest[k].command));
                let j = choose|j: int|
                    0 <= j < prefix.len() && #[trigger] prefix[j].command == rest[k].command;
                assert(tasks[j].command == d[k].command);
            } else {
                assert(d[k] == tasks.last());
                assert(tasks[tasks.len() - 1].command == d[k].command);
            }
        }
    }
}

/// De-duplication leaves no two tasks with the same command text: two
/// tasks with identical commands, wherever they came from, yield exactly
/// one entry of the plan.
pub proof fn lemma_dedup_commands_distinct(tasks: Seq<TaskView>)
    ensures
        forall|i: int, j: int|
            0 <= i < j < spec_dedup(tasks).len() ==> #[trigger] spec_dedup(tasks)[i].command
                != #[trigger] spec_dedup(tasks)[j].command,
    decreases tasks.len(),
{
    if tasks.len() > 0 {
        let prefix = tasks.drop_last();
        lemma_dedup_commands_distinct(prefix);
        lemma_dedup_commands_come_from(prefix);
        let d = spec_dedup(tasks);
        let rest = spec_dedup(prefix);
        assert forall|i: int, j: int|
            0 <= i < j < d.len() implies #[trigger] d[i].command != #[trigger] d[j].command by {
            if j < rest.len() {
                assert(d[i] == rest[i] && d[j] == rest[j]);
            } else if i < rest.len() && j == rest.len() && d.len() == rest.len() + 1 {
                assert(d[i] == rest[i]);
                assert(d[j] == tasks.last());
                assert(!command_seen(tasks, tasks.len() - 1, tasks.last().command));
                assert(command_seen(prefix, prefix.len() as int, rest[i].command));
                if rest[i].command == tasks.last().command {
                    let j2 = choose|j2: int|
                        0 <= j2 < prefix.len() && #[trigger] prefix[j2].command
                            == rest[i].command;
                    assert(tasks[j2].command == tasks.last().command);
                    assert(command_seen(tasks, tasks.len() - 1, tasks.last().command));
                }
            }
        }
    }
}

/// What parsing each workflow text yields: all of them, or the fact that
/// one failed; the orchestrator then falls back to the GitLab file.
pub open spec fn spec_github_configs(texts: Seq<Seq<char>>) -> Result<
    Seq<github::CiConfigView>,
    (),
>
    decreases texts.len(),
{
    if texts.len() == 0 {
        Ok(Seq::empty())
    } else {
        match spec_github_configs(texts.drop_last()) {
            Err(()) => Err(()),
            Ok(acc) => match github::spec_parse(texts.last()) {
                Ok(c) => Ok(acc.push(c)),
                Err(_) => Err(()),
            },
        }
    }
}

/// The selected tasks of a row of workflow configurations, concatenated in
/// file order.
pub open spec fn spec_selected_of_configs(
    configs: Seq<github::CiConfigView>,
    blacklist: Seq<Seq<char>>,
    triggers: Seq<TriggerView>,
) -> Seq<TaskView>
    decreases configs.len(),
{
    if configs.len() == 0 {
        Seq::empty()
    } else {
        spec_selected_of_configs(configs.drop_last(), blacklist, triggers) + spec_select(
            github_all_tasks(configs.last()),
            blacklist,
            triggers,
        )
    }
}

/// The plan of a run: when workflow files are present and all parse, their
/// selected tasks in file order, de-duplicated across files; otherwise,
/// when a GitLab text is present and parses, its selected tasks,
/// de-duplicated; otherwise nothing.
pub open spec fn spec_plan(
    github_texts: Seq<Seq<char>>,
    gitlab_text: Option<Seq<char>>,
    blacklist: Seq<Seq<char>>,
    triggers: Seq<TriggerView>,
) -> Option<Seq<TaskView>> {
    let github_configs = if github_texts.len() > 0 {
        spec_github_configs(github_texts)
    } else {
        Err(())
    };
    match github_configs {
        Ok(configs) => Some(
            spec_dedup(spec_selected_of_configs(configs, blacklist, triggers)),
        ),
        Err(()) => match gitlab_text {
            Some(text) => match gitlab::spec_parse(text) {
                Ok(c) => Some(
                    spec_dedup(spec_select(gitlab_all_tasks(c), blacklist, triggers)),
                ),
                Err(_) => None,
            },
            None => None,
        },
    }
}

proof fn lemma_github_configs_error_persists(texts: Seq<Seq<char>>, i: int)
    requires
        0 <= i <= texts.len(),
        spec_github_configs(texts.take(i)) is Err,
    ensures
        spec_github_configs(texts) is Err,
    decreases texts.len() - i,
{
    if i < texts.len() {
        assert(texts.take(i + 1).drop_last() =~= texts.take(i));
        lemma_github_configs_error_persists(texts, i + 1);
    } else {
        assert(texts.take(i) =~= texts);
    }
}

fn parse_github_configs(texts: &Vec<String>) -> (r: Option<Vec<github::CiConfig>>)
    ensures
        (match r {
            Some(configs) => spec_github_configs(views_of_strings(texts@)) == Ok::<_, ()>(
                configs@.map_values(|c: github::CiConfig| c@),
            ),
            None => spec_github_configs(views_of_strings(texts@)) is Err,
        }),
{
    let ghost text_views = views_of_strings(texts@);
    let mut configs: Vec<github::CiConfig> = Vec::new();
    proof {
        assert(configs@.map_values(|c: github::CiConfig| c@) =~= Seq::<
            github::CiConfigView,
        >::empty());
        assert(spec_github_configs(text_views.take(0)) == Ok::<_, ()>(Seq::<
            github::CiConfigView,
        >::empty()));
    }
    let mut i: usize = 0;
    while i < texts.len()
        invariant
            0 <= i <= texts@.len(),
            text_views == views_of_strings(texts@),
            text_views.len() == texts@.len(),
            spec_github_configs(text_views.take(i as int)) == Ok::<_, ()>(
                configs@.map_values(|c: github::CiConfig| c@),
            ),
        decreases texts@.len() - i,
    {
        let ghost configs_prev = configs@;
        proof {
            assert(text_views[i as int] == texts@[i as int]@);
            assert(text_views.take(i + 1).drop_last() =~= text_views.take(i as int));
            assert(text_views.take(i + 1).last() == text_views[i as int]);
        }
        match github::CiConfig::try_from(texts[i].as_str()) {
            Ok(config) => {
                configs.push(config);
                proof {
                    assert(configs@.map_values(|c: github::CiConfig| c@) =~= configs_prev
                        .map_values(|c: github::CiConfig| c@).push(configs@.last()@));
                }
            },
            Err(_) => {
                proof {
                    lemma_github_configs_error_persists(text_views, i + 1);
                }
                return None;
            },
        }
        i = i + 1;
    }
    proof {
        assert(text_views.take(text_views.len() as int) =~= text_views);
    }
    Some(configs)
}

/// Builds the execution plan of a run from the contents of the discovered
/// configuration files: the workflow texts in their filename order, and the
/// GitLab text if one exists. When no provider yields a plan — no file, or
/// only files that fail to parse — the run cannot start.
pub fn plan_run(
    github_texts: &Vec<String>,
    gitlab_text: &Option<String>,
    config: &Config,
    triggers: &Vec<Trigger>,
) -> (r: Result<Vec<Task>, CiError>)
    ensures
        (match r {
            Ok(plan) => spec_plan(
                views_of_strings(github_texts@),
                (match gitlab_text {
                    Some(text) => Some(text@),
                    None => None,
                }),
                config.blacklist_view(),
                views_of_triggers(triggers@),
            ) == Some(views_of_tasks(plan@)),
            Err(e) => spec_plan(
                views_of_strings(github_texts@),
                (match gitlab_text {
                    Some(text) => Some(text@),
                    None => None,
                }),
                config.blacklist_view(),
                views_of_triggers(triggers@),
            ) is None && e is NoCiConfigurationFound,
        }),
{
    let ghost blacklist = config.blacklist_view();
    let ghost trigger_views = views_of_triggers(triggers@);
    if github_texts.len() > 0 {
        match parse_github_configs(github_texts) {
            Some(configs) => {
                let ghost config_views = configs@.map_values(|c: github::CiConfig| c@);
                let mut combined: Vec<Task> = Vec::new();
                proof {
                    assert(views_of_tasks(combined@) =~= spec_selected_of_configs(
                        config_views.take(0),
                        blacklist,
                        trigger_views,
                    ));
                }
                let mut i: usize = 0;
                while i < configs.len()
                    invariant
                        0 <= i <= configs@.len(),
                        config_views == configs@.map_values(|c: github::CiConfig| c@),
                        config_views.len() == configs@.len(),
                        blacklist == config.blacklist_view(),
                        trigger_views == views_of_triggers(triggers@),
                        views_of_tasks(combined@) == spec_selected_of_configs(
                            config_views.take(i as int),
                            blacklist,
                            trigger_views,
                        ),
                    decreases configs@.len() - i,
                {
                    let ghost combined_prev = combined@;
                    proof {
                        assert(config_views[i as int] == configs@[i as int]@);
                        assert(config_views.take(i + 1).drop_last() =~= config_views.take(
                            i as int,
                        ));
                        assert(config_views.take(i + 1).last() == config_views[i as int]);
                    }
                    let mut selected = configs[i].tasks(config, triggers);
                    combined.append(&mut selected);
                    proof {
                        assert(views_of_tasks(combined@) =~= views_of_tasks(combined_prev)
                            + spec_select(
                            github_all_tasks(config_views[i as int]),
                            blacklist,
                            trigger_views,
                        ));
                        assert(views_of_tasks(combined@) =~= spec_selected_of_configs(
                            config_views.take(i + 1),
                            blacklist,
                            trigger_views,
                        ));
                    }
                    i = i + 1;
                }
                proof {
                    assert(config_views.take(config_views.len() as int) =~= config_views);
                }
                return Ok(dedup_tasks(combined));
            },
            None => {},
        }
    }
    match gitlab_text {
        Some(text) => {
            match gitlab::CiConfig::try_from(text.as_str()) {
                Ok(gitlab_config) => {
                    let selected = gitlab_config.tasks(config, triggers);
                    Ok(dedup_tasks(selected))
                },
                Err(_) => Err(CiError::NoCiConfigurationFound),
            }
        },
        None => Err(CiError::NoCiConfigurationFound),
    }
}

/// Get the best estimate of the triggers for this CI run, from what git
/// reports: the branch being pushed, and whether an upstream remote is
/// configured. We cannot know for sure that a pull request will follow,
/// but we assume so when an upstream remote exists.
pub fn get_triggers(branch: String, upstream: bool) -> (r: Vec<Trigger>)
    ensures
        views_of_triggers(r@) == (if upstream {
            seq![TriggerView::Push { branch: branch@ }, TriggerView::PullRequest]
        } else {
            seq![TriggerView::Push { branch: branch@ }]
        }),
{
    let mut triggers: Vec<Trigger> = Vec::new();
    triggers.push(Trigger::Push { branch });
    if upstream {
        triggers.push(Trigger::PullRequest);
        proof {
            assert(views_of_triggers(triggers@) =~= seq![
                TriggerView::Push { branch: triggers@[0]->Push_branch@ },
                TriggerView::PullRequest,
            ]);
        }
    } else {
        proof {
            assert(views_of_triggers(triggers@) =~= seq![
                TriggerView::Push { branch: triggers@[0]->Push_branch@ },
            ]);
        }
    }
    triggers
}

/// Whether the output of `git remote` names an upstream remote; used to
/// guess that a pull request will follow. Limited to upstream repositories
/// actually named 'upstream'.
pub fn has_upstream(remotes: &str) -> (r: bool)
    ensures
        r == is_substring_of("upstream"@, remotes@),
{
    contains_substring(remotes, "upstream")
}

} // verus!
