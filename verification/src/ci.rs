//! The provider-agnostic task model: tasks, their applicability, the local
//! triggers, and the selection of the tasks worth running locally.

pub mod github;
pub mod gitlab;

use vstd::prelude::*;
use crate::config::Config;
use crate::text::{contains_string, contains_substring, is_substring_of, views_of_strings};

verus! {

/// One shell-runnable step extracted from a CI configuration.
pub struct Task {
    pub name: Option<String>,
    pub command: String,
    pub applicability: Vec<Applicability>,
}

/// Applicability represents the times when a task should be run.
///
/// See [`Trigger`] for additional details.
pub enum Applicability {
    /// Run only on a push; when branches are listed, only on a push to one
    /// of those branches.
    Push { branches: Option<Vec<String>> },
    /// Run on pull requests.
    PullRequest,
    /// Always applicable.
    Any,
}

/// Trigger represents the type of CI event we expect to happen.
///
/// We cannot know whether the user will open a pull request, but we assume
/// so when they have an upstream remote configured.
pub enum Trigger {
    Push { branch: String },
    PullRequest,
}

/// The mathematical shape of a [`Task`].
pub struct TaskView {
    pub name: Option<Seq<char>>,
    pub command: Seq<char>,
    pub applicability: Seq<ApplicabilityView>,
}

/// The mathematical shape of an [`Applicability`].
pub enum ApplicabilityView {
    Push { branches: Option<Seq<Seq<char>>> },
    PullRequest,
    Any,
}

/// The mathematical shape of a [`Trigger`].
pub enum TriggerView {
    Push { branch: Seq<char> },
    PullRequest,
}

pub open spec fn applicability_view(a: Applicability) -> ApplicabilityView {
    match a {
        Applicability::Push { branches: Some(branches) } => ApplicabilityView::Push {
            branches: Some(views_of_strings(branches@)),
        },
        Applicability::Push { branches: None } => ApplicabilityView::Push { branches: None },
        Applicability::PullRequest => ApplicabilityView::PullRequest,
        Applicability::Any => ApplicabilityView::Any,
    }
}

impl View for Applicability {
    type V = ApplicabilityView;

    open spec fn view(&self) -> ApplicabilityView {
        applicability_view(*self)
    }
}

pub open spec fn trigger_view(t: Trigger) -> TriggerView {
    match t {
        Trigger::Push { branch } => TriggerView::Push { branch: branch@ },
        Trigger::PullRequest => TriggerView::PullRequest,
    }
}

impl View for Trigger {
    type V = TriggerView;

    open spec fn view(&self) -> TriggerView {
        trigger_view(*self)
    }
}

pub open spec fn views_of_applicabilities(s: Seq<Applicability>) -> Seq<ApplicabilityView> {
    s.map_values(|a: Applicability| a@)
}

pub open spec fn views_of_triggers(s: Seq<Trigger>) -> Seq<TriggerView> {
    s.map_values(|t: Trigger| t@)
}

pub open spec fn task_view(t: Task) -> TaskView {
    TaskView {
        name: match t.name {
            Some(n) => Some(n@),
            None => None,
        },
        command: t.command@,
        applicability: views_of_applicabilities(t.applicability@),
    }
}

impl View for Task {
    type V = TaskView;

    open spec fn view(&self) -> TaskView {
        task_view(*self)
    }
}

pub open spec fn views_of_tasks(s: Seq<Task>) -> Seq<TaskView> {
    s.map_values(|t: Task| t@)
}

/// Whether one applicability declaration is satisfied by one actual trigger.
pub open spec fn spec_triggered(a: ApplicabilityView, t: TriggerView) -> bool {
    match (a, t) {
        (
            ApplicabilityView::Push { branches: Some(branches) },
            TriggerView::Push { branch },
        ) => branches.contains(branch),
        (ApplicabilityView::Push { branches: None }, TriggerView::Push { .. }) => true,
        (ApplicabilityView::PullRequest, TriggerView::PullRequest) => true,
        (ApplicabilityView::Any, _) => true,
        _ => false,
    }
}

/// Whether at least one applicability entry is satisfied by at least one
/// trigger: a logical OR across both dimensions. An empty applicability
/// sequence, like an empty trigger set, satisfies nothing.
pub open spec fn spec_applicable(
    apps: Seq<ApplicabilityView>,
    triggers: Seq<TriggerView>,
) -> bool {
    exists|i: int, j: int|
        0 <= i < apps.len() && 0 <= j < triggers.len() && #[trigger] spec_triggered(
            apps[i],
            triggers[j],
        )
}

/// Whether a command contains any blacklist entry as a literal substring.
pub open spec fn spec_blacklisted(command: Seq<char>, blacklist: Seq<Seq<char>>) -> bool {
    exists|i: int|
        0 <= i < blacklist.len() && #[trigger] is_substring_of(blacklist[i], command)
}

/// Whether a task survives selection: not blacklisted, and applicable to
/// the triggers at hand.
pub open spec fn spec_selected(
    t: TaskView,
    blacklist: Seq<Seq<char>>,
    triggers: Seq<TriggerView>,
) -> bool {
    !spec_blacklisted(t.command, blacklist) && spec_applicable(t.applicability, triggers)
}

/// The order-preserving filter of a task sequence down to the selected
/// tasks.
pub open spec fn spec_select(
    tasks: Seq<TaskView>,
    blacklist: Seq<Seq<char>>,
    triggers: Seq<TriggerView>,
) -> Seq<TaskView>
    decreases tasks.len(),
{
    if tasks.len() == 0 {
        Seq::empty()
    } else {
        let rest = spec_select(tasks.drop_last(), blacklist, triggers);
        if spec_selected(tasks.last(), blacklist, triggers) {
            rest.push(tasks.last())
        } else {
            rest
        }
    }
}

/// Selection is exactly the blacklist filter followed by the applicability
/// filter: every selected task is free of blacklist substrings and
/// applicable to the triggers, and every task of the input with both
/// properties is selected.
pub proof fn lemma_select_characterization(
    tasks: Seq<TaskView>,
    blacklist: Seq<Seq<char>>,
    triggers: Seq<TriggerView>,
)
    ensures
        forall|i: int|
            0 <= i < spec_select(tasks, blacklist, triggers).len() ==> spec_selected(
                #[trigger] spec_select(tasks, blacklist, triggers)[i],
                blacklist,
                triggers,
            ),
        forall|i: int|
            0 <= i < tasks.len() && spec_selected(#[trigger] tasks[i], blacklist, triggers)
                ==> spec_select(tasks, blacklist, triggers).contains(tasks[i]),
    decreases tasks.len(),
{
    let result = spec_select(tasks, blacklist, triggers);
    if tasks.len() > 0 {
        let prefix = tasks.drop_last();
        let rest = spec_select(prefix, blacklist, triggers);
        lemma_select_characterization(prefix, blacklist, triggers);
        assert forall|i: int|
            0 <= i < result.len() implies spec_selected(
            #[trigger] result[i],
            blacklist,
            triggers,
        ) by {
            if i < rest.len() {
                assert(result[i] == rest[i]);
            } else {
                assert(result[i] == tasks.last());
            }
        }
        assert forall|i: int|
            0 <= i < tasks.len() && spec_selected(#[trigger] tasks[i], blacklist, triggers)
            implies result.contains(tasks[i]) by {
            if i < tasks.len() - 1 {
                assert(prefix[i] == tasks[i]);
                assert(rest.contains(tasks[i]));
                let k = choose|k: int| 0 <= k < rest.len() && rest[k] == tasks[i];
                assert(result[k] == tasks[i]);
            } else {
                assert(result[result.len() - 1] == tasks[i]);
            }
        }
    }
}

/// An always-applicable task is selected under every non-empty trigger
/// set; under an empty trigger set nothing is applicable, since no trigger
/// is present to satisfy the OR.
pub proof fn lemma_any_matches_nonempty_triggers(
    apps: Seq<ApplicabilityView>,
    triggers: Seq<TriggerView>,
)
    requires
        apps.contains(ApplicabilityView::Any),
    ensures
        spec_applicable(apps, triggers) <==> triggers.len() > 0,
{
    if triggers.len() > 0 {
        let i = choose|i: int| 0 <= i < apps.len() && apps[i] == ApplicabilityView::Any;
        assert(spec_triggered(apps[i], triggers[0]));
    }
}

/// Under an empty trigger set no applicability declaration whatever is
/// satisfied.
pub proof fn lemma_empty_triggers_match_nothing(apps: Seq<ApplicabilityView>)
    ensures
        !spec_applicable(apps, Seq::empty()),
{
}

impl Applicability {
    /// Whether this applicability is satisfied by the given trigger.
    pub fn is_triggered_by(&self, trigger: &Trigger) -> (r: bool)
        ensures
            r == spec_triggered(self@, trigger@),
    {
        match (self, trigger) {
            (Applicability::Push { branches: Some(branches) }, Trigger::Push { branch }) => {
                contains_string(branches, branch)
            },
            (Applicability::Push { branches: None }, Trigger::Push { .. }) => true,
            (Applicability::PullRequest, Trigger::PullRequest) => true,
            (Applicability::Any, _) => true,
            _ => false,
        }
    }
}

impl Task {
    /// Builds a task; tasks are immutable once built.
    pub fn new(name: Option<String>, command: String, applicability: Vec<Applicability>) -> (r:
        Task)
        ensures
            r@ == (TaskView {
                name: match name {
                    Some(n) => Some(n@),
                    None => None,
                },
                command: command@,
                applicability: views_of_applicabilities(applicability@),
            }),
    {
        Task { name, command, applicability }
    }

    /// The label shown when the task runs: its name, or its command text
    /// when it has none.
    pub fn display_name(&self) -> (r: String)
        ensures
            r@ == (match self@.name {
                Some(n) => n,
                None => self@.command,
            }),
    {
        match &self.name {
            Some(n) => n.clone(),
            None => self.command.clone(),
        }
    }
}

fn is_blacklisted(command: &String, blacklist: &Vec<String>) -> (r: bool)
    ensures
        r == spec_blacklisted(command@, views_of_strings(blacklist@)),
{
    let mut i: usize = 0;
    while i < blacklist.len()
        invariant
            0 <= i <= blacklist@.len(),
            forall|j: int|
                0 <= j < i ==> !is_substring_of(
                    views_of_strings(blacklist@)[j],
                    command@,
                ),
        decreases blacklist@.len() - i,
    {
        if contains_substring(command.as_str(), blacklist[i].as_str()) {
            proof {
                assert(is_substring_of(views_of_strings(blacklist@)[i as int], command@));
            }
            return true;
        }
        i = i + 1;
    }
    false
}

fn is_applicable(apps: &Vec<Applicability>, triggers: &Vec<Trigger>) -> (r: bool)
    ensures
        r == spec_applicable(views_of_applicabilities(apps@), views_of_triggers(triggers@)),
{
    let ghost app_views = views_of_applicabilities(apps@);
    let ghost trigger_views = views_of_triggers(triggers@);
    let mut i: usize = 0;
    while i < apps.len()
        invariant
            0 <= i <= apps@.len(),
            app_views == views_of_applicabilities(apps@),
            trigger_views == views_of_triggers(triggers@),
            forall|i2: int, j2: int|
                0 <= i2 < i && 0 <= j2 < trigger_views.len() ==> !spec_triggered(
                    app_views[i2],
                    trigger_views[j2],
                ),
        decreases apps@.len() - i,
    {
        let mut j: usize = 0;
        while j < triggers.len()
            invariant
                0 <= i < apps@.len(),
                0 <= j <= triggers@.len(),
                app_views == views_of_applicabilities(apps@),
                trigger_views == views_of_triggers(triggers@),
                forall|j2: int|
                    0 <= j2 < j ==> !spec_triggered(app_views[i as int], trigger_views[j2]),
            decreases triggers@.len() - j,
        {
            if apps[i].is_triggered_by(&triggers[j]) {
                proof {
                    assert(spec_triggered(app_views[i as int], trigger_views[j as int]));
                }
                return true;
            }
            j = j + 1;
        }
        i = i + 1;
    }
    false
}

/// Selects, in order, the tasks that are not blacklisted and that apply to
/// the given triggers: the blacklist filter runs first, the applicability
/// filter second. Every task whose command holds a blacklist entry as a
/// literal substring is excluded; every other task is kept exactly when one
/// of its applicability entries is satisfied by one of the triggers.
pub fn select_tasks(all: Vec<Task>, config: &Config, triggers: &Vec<Trigger>) -> (r: Vec<Task>)
    ensures
        views_of_tasks(r@) == spec_select(
            views_of_tasks(all@),
            config.blacklist_view(),
            views_of_triggers(triggers@),
        ),
{
    let ghost all_views = views_of_tasks(all@);
    let ghost blacklist = config.blacklist_view();
    let ghost trigger_views = views_of_triggers(triggers@);
    let mut out: Vec<Task> = Vec::new();
    proof {
        assert(views_of_tasks(out@) =~= spec_select(all_views.take(0), blacklist, trigger_views));
    }
    let mut remaining = all;
    let mut i: usize = 0;
    while i < remaining.len()
        invariant
            0 <= i <= remaining@.len(),
            all_views == views_of_tasks(remaining@),
            views_of_tasks(out@) == spec_select(all_views.take(i as int), blacklist, trigger_views),
            blacklist == config.blacklist_view(),
            trigger_views == views_of_triggers(triggers@),
        decreases remaining@.len() - i,
    {
        let keep = !is_blacklisted(&remaining[i].command, &config.command_blacklist)
            && is_applicable(&remaining[i].applicability, triggers);
        proof {
            assert(all_views[i as int] == remaining@[i as int]@);
            assert(keep == spec_selected(all_views[i as int], blacklist, trigger_views));
            assert(all_views.take(i + 1).drop_last() =~= all_views.take(i as int));
            assert(all_views.take(i + 1).last() == all_views[i as int]);
        }
        if keep {
            let task = clone_task(&remaining[i]);
            out.push(task);
            proof {
                assert(views_of_tasks(out@) =~= spec_select(
                    all_views.take(i + 1),
                    blacklist,
                    trigger_views,
                ));
            }
        } else {
            proof {
                assert(views_of_tasks(out@) =~= spec_select(
                    all_views.take(i + 1),
                    blacklist,
                    trigger_views,
                ));
            }
        }
        i = i + 1;
    }
    proof {
        assert(all_views.take(remaining@.len() as int) =~= all_views);
    }
    out
}

fn clone_string_option(o: &Option<String>) -> (r: Option<String>)
    ensures
        (match (o, r) {
            (Some(a), Some(b)) => a@ == b@,
            (None, None) => true,
            _ => false,
        }),
{
    match o {
        Some(s) => Some(s.clone()),
        None => None,
    }
}

fn clone_applicability(a: &Applicability) -> (r: Applicability)
    ensures
        r@ == a@,
{
    match a {
        Applicability::Push { branches: Some(branches) } => {
            let copy: Vec<String> = branches.clone();
            proof {
                assert(copy@ =~= branches@);
            }
            Applicability::Push { branches: Some(copy) }
        },
        Applicability::Push { branches: None } => Applicability::Push { branches: None },
        Applicability::PullRequest => Applicability::PullRequest,
        Applicability::Any => Applicability::Any,
    }
}

/// Copies a vector of applicability declarations, keeping its view.
pub fn clone_applicabilities(v: &Vec<Applicability>) -> (r: Vec<Applicability>)
    ensures
        views_of_applicabilities(r@) == views_of_applicabilities(v@),
{
    let mut out: Vec<Applicability> = Vec::new();
    let mut i: usize = 0;
    while i < v.len()
        invariant
            0 <= i <= v@.len(),
            out@.len() == i,
            forall|j: int| 0 <= j < i ==> out@[j]@ == v@[j]@,
        decreases v@.len() - i,
    {
        out.push(clone_applicability(&v[i]));
        i = i + 1;
    }
    proof {
        assert(views_of_applicabilities(out@) =~= views_of_applicabilities(v@));
    }
    out
}

pub(crate) fn clone_task(t: &Task) -> (r: Task)
    ensures
        r@ == t@,
{
    Task {
        name: clone_string_option(&t.name),
        command: t.command.clone(),
        applicability: clone_applicabilities(&t.applicability),
    }
}

/// A CI configuration that can list the tasks it describes.
pub trait TaskList {
    /// The tasks this configuration describes, as mathematical values.
    spec fn spec_all_tasks(&self) -> Seq<TaskView>;

    /// Returns all CI tasks, including tasks which we would not want to
    /// execute locally.
    fn all_tasks(&self) -> (r: Vec<Task>)
        ensures
            views_of_tasks(r@) == self.spec_all_tasks(),
    ;

    /// Returns the subset of CI tasks that we do want to execute locally:
    /// the blacklist filter first, the applicability filter second, order
    /// preserved.
    fn tasks(&self, config: &Config, triggers: &Vec<Trigger>) -> (r: Vec<Task>)
        ensures
            views_of_tasks(r@) == spec_select(
                self.spec_all_tasks(),
                config.blacklist_view(),
                views_of_triggers(triggers@),
            ),
    ;
}

/// The task one workflow step yields: the step's name and command, under
/// the document-wide applicability.
pub open spec fn github_step_task(
    s: github::CiConfigJobStepView,
    on: Seq<ApplicabilityView>,
) -> TaskView {
    TaskView { name: s.name, command: s.run, applicability: on }
}

/// The tasks of one workflow job, in step order.
pub open spec fn github_job_tasks(
    steps: Seq<github::CiConfigJobStepView>,
    on: Seq<ApplicabilityView>,
) -> Seq<TaskView> {
    steps.map_values(|s: github::CiConfigJobStepView| github_step_task(s, on))
}

/// The tasks of a workflow's jobs, flattened in job order.
pub open spec fn github_tasks_from_jobs(
    jobs: Seq<(Seq<char>, github::CiConfigJobView)>,
    on: Seq<ApplicabilityView>,
) -> Seq<TaskView>
    decreases jobs.len(),
{
    if jobs.len() == 0 {
        Seq::empty()
    } else {
        github_tasks_from_jobs(jobs.drop_last(), on) + github_job_tasks(
            jobs.last().1.steps,
            on,
        )
    }
}

/// Every task of a workflow file shares the file's `on` declaration:
/// applicability is document-scoped, not per-job.
pub open spec fn github_all_tasks(c: github::CiConfigView) -> Seq<TaskView> {
    github_tasks_from_jobs(c.jobs, c.on)
}

impl TaskList for github::CiConfig {
    open spec fn spec_all_tasks(&self) -> Seq<TaskView> {
        github_all_tasks(self@)
    }

    fn all_tasks(&self) -> (r: Vec<Task>) {
        let ghost jobs_view = self@.jobs;
        let ghost on_view = self@.on;
        let mut out: Vec<Task> = Vec::new();
        proof {
            assert(views_of_tasks(out@) =~= github_tasks_from_jobs(jobs_view.take(0), on_view));
        }
        let mut i: usize = 0;
        while i < self.jobs.len()
            invariant
                0 <= i <= self.jobs@.len(),
                jobs_view == self@.jobs,
                on_view == self@.on,
                jobs_view.len() == self.jobs@.len(),
                views_of_tasks(out@) == github_tasks_from_jobs(jobs_view.take(i as int), on_view),
            decreases self.jobs@.len() - i,
        {
            let steps = &self.jobs[i].1.steps;
            let ghost steps_view = jobs_view[i as int].1.steps;
            proof {
                assert(jobs_view[i as int] == (self.jobs@[i as int].0@, self.jobs@[i as int].1@));
                assert(steps_view =~= steps@.map_values(|s: github::CiConfigJobStep| s@));
            }
            let mut j: usize = 0;
            while j < steps.len()
                invariant
                    0 <= j <= steps@.len(),
                    steps_view == steps@.map_values(|s: github::CiConfigJobStep| s@),
                    steps_view.len() == steps@.len(),
                    on_view == self@.on,
                    views_of_tasks(out@) == github_tasks_from_jobs(jobs_view.take(i as int), on_view)
                        + github_job_tasks(steps_view.take(j as int), on_view),
                decreases steps@.len() - j,
            {
                let step = &steps[j];
                let task = Task::new(
                    clone_string_option(&step.name),
                    step.run.clone(),
                    clone_applicabilities(&self.on),
                );
                let ghost out_prev = out@;
                out.push(task);
                proof {
                    assert(steps_view[j as int] == steps@[j as int]@);
                    assert(task@ == github_step_task(steps_view[j as int], on_view));
                    assert(views_of_tasks(out@) =~= views_of_tasks(out_prev).push(task@));
                    assert(github_job_tasks(steps_view.take(j + 1), on_view) =~= github_job_tasks(
                        steps_view.take(j as int),
                        on_view,
                    ).push(github_step_task(steps_view[j as int], on_view)));
                    assert(views_of_tasks(out@) =~= github_tasks_from_jobs(
                        jobs_view.take(i as int),
                        on_view,
                    ) + github_job_tasks(steps_view.take(j + 1), on_view));
                }
                j = j + 1;
            }
            proof {
                assert(steps_view.take(steps_view.len() as int) =~= steps_view);
                assert(jobs_view.take(i + 1).drop_last() =~= jobs_view.take(i as int));
                assert(jobs_view.take(i + 1).last() == jobs_view[i as int]);
                assert(views_of_tasks(out@) =~= github_tasks_from_jobs(
                    jobs_view.take(i + 1),
                    on_view,
                ));
            }
            i = i + 1;
        }
        proof {
            assert(jobs_view.take(jobs_view.len() as int) =~= jobs_view);
        }
        out
    }

    fn tasks(&self, config: &Config, triggers: &Vec<Trigger>) -> (r: Vec<Task>) {
        let all = self.all_tasks();
        select_tasks(all, config, triggers)
    }
}

/// The tasks of one GitLab job: one per script entry, in order, nameless
/// and always applicable; a job without a script yields none.
pub open spec fn gitlab_job_tasks(script: Option<Seq<Seq<char>>>) -> Seq<TaskView> {
    match script {
        Some(commands) => commands.map_values(
            |c: Seq<char>| TaskView {
                name: None,
                command: c,
                applicability: seq![ApplicabilityView::Any],
            },
        ),
        None => Seq::empty(),
    }
}

/// The tasks of a GitLab file's jobs, flattened in job order.
pub open spec fn gitlab_tasks_from_jobs(
    jobs: Seq<(Seq<char>, gitlab::CiConfigJobView)>,
) -> Seq<TaskView>
    decreases jobs.len(),
{
    if jobs.len() == 0 {
        Seq::empty()
    } else {
        gitlab_tasks_from_jobs(jobs.drop_last()) + gitlab_job_tasks(jobs.last().1.script)
    }
}

pub open spec fn gitlab_all_tasks(c: gitlab::CiConfigView) -> Seq<TaskView> {
    gitlab_tasks_from_jobs(c.jobs)
}

impl TaskList for gitlab::CiConfig {
    open spec fn spec_all_tasks(&self) -> Seq<TaskView> {
        gitlab_all_tasks(self@)
    }

    fn all_tasks(&self) -> (r: Vec<Task>) {
        let ghost jobs_view = self@.jobs;
        let mut out: Vec<Task> = Vec::new();
        proof {
            assert(views_of_tasks(out@) =~= gitlab_tasks_from_jobs(jobs_view.take(0)));
        }
        let mut i: usize = 0;
        while i < self.jobs.len()
            invariant
                0 <= i <= self.jobs@.len(),
                jobs_view == self@.jobs,
                jobs_view.len() == self.jobs@.len(),
                views_of_tasks(out@) == gitlab_tasks_from_jobs(jobs_view.take(i as int)),
            decreases self.jobs@.len() - i,
        {
            proof {
                assert(jobs_view[i as int] == (self.jobs@[i as int].0@, self.jobs@[i as int].1@));
            }
            match &self.jobs[i].1.script {
                Some(commands) => {
                    let ghost command_views = views_of_strings(commands@);
                    let mut j: usize = 0;
                    while j < commands.len()
                        invariant
                            0 <= j <= commands@.len(),
                            command_views == views_of_strings(commands@),
                            command_views.len() == commands@.len(),
                            views_of_tasks(out@) == gitlab_tasks_from_jobs(
                                jobs_view.take(i as int),
                            ) + gitlab_job_tasks(Some(command_views)).take(j as int),
                        decreases commands@.len() - j,
                    {
                        let mut applicability: Vec<Applicability> = Vec::new();
                        applicability.push(Applicability::Any);
                        let task = Task::new(None, commands[j].clone(), applicability);
                        let ghost out_prev = out@;
                        out.push(task);
                        proof {
                            assert(views_of_tasks(out@) =~= views_of_tasks(out_prev).push(task@));
                            assert(views_of_applicabilities(seq![Applicability::Any]) =~= seq![
                                ApplicabilityView::Any,
                            ]);
                            assert(task@ == gitlab_job_tasks(Some(command_views))[j as int]);
                            assert(gitlab_job_tasks(Some(command_views)).take(j + 1)
                                =~= gitlab_job_tasks(Some(command_views)).take(j as int).push(
                                task@,
                            ));
                            assert(views_of_tasks(out@) =~= gitlab_tasks_from_jobs(
                                jobs_view.take(i as int),
                            ) + gitlab_job_tasks(Some(command_views)).take(j + 1));
                        }
                        j = j + 1;
                    }
                    proof {
                        let full = gitlab_job_tasks(Some(command_views));
                        assert(full.take(full.len() as int) =~= full);
                        assert(jobs_view.take(i + 1).drop_last() =~= jobs_view.take(i as int));
                        assert(jobs_view.take(i + 1).last() == jobs_view[i as int]);
                        assert(views_of_tasks(out@) =~= gitlab_tasks_from_jobs(
                            jobs_view.take(i + 1),
                        ));
                    }
                },
                None => {
                    proof {
                        assert(jobs_view.take(i + 1).drop_last() =~= jobs_view.take(i as int));
                        assert(jobs_view.take(i + 1).last() == jobs_view[i as int]);
                        assert(views_of_tasks(out@) =~= gitlab_tasks_from_jobs(
                            jobs_view.take(i + 1),
                        ));
                    }
                },
            }
            i = i + 1;
        }
        proof {
            assert(jobs_view.take(jobs_view.len() as int) =~= jobs_view);
        }
        out
    }

    fn tasks(&self, config: &Config, triggers: &Vec<Trigger>) -> (r: Vec<Task>) {
        let all = self.all_tasks();
        select_tasks(all, config, triggers)
    }
}

} // verus!
