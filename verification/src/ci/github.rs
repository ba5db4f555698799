//! The GitHub-Actions-like configuration format.

use vstd::prelude::*;
use super::{Applicability, ApplicabilityView, views_of_applicabilities};
use crate::text::views_of_strings;
use crate::yaml::{YamlValue, YamlView, node_get, views_of_entries, views_of_nodes, yaml_docs_of};

verus! {

/// A parsed workflow file: its name, its jobs keyed by name in document
/// order, and the document-wide trigger declaration.
pub struct CiConfig {
    pub name: String,
    pub jobs: Vec<(String, CiConfigJob)>,
    pub on: Vec<Applicability>,
}

/// One job: an ordered sequence of steps.
pub struct CiConfigJob {
    pub steps: Vec<CiConfigJobStep>,
}

/// One step that runs a command; steps without a command are dropped while
/// parsing.
pub struct CiConfigJobStep {
    pub name: Option<String>,
    pub run: String,
}

/// The mathematical shape of a [`CiConfigJobStep`].
pub struct CiConfigJobStepView {
    pub name: Option<Seq<char>>,
    pub run: Seq<char>,
}

/// The mathematical shape of a [`CiConfigJob`].
pub struct CiConfigJobView {
    pub steps: Seq<CiConfigJobStepView>,
}

/// The mathematical shape of a [`CiConfig`].
pub struct CiConfigView {
    pub name: Seq<char>,
    pub jobs: Seq<(Seq<char>, CiConfigJobView)>,
    pub on: Seq<ApplicabilityView>,
}

pub open spec fn step_view(s: CiConfigJobStep) -> CiConfigJobStepView {
    CiConfigJobStepView {
        name: match s.name {
            Some(n) => Some(n@),
            None => None,
        },
        run: s.run@,
    }
}

impl View for CiConfigJobStep {
    type V = CiConfigJobStepView;

    open spec fn view(&self) -> CiConfigJobStepView {
        step_view(*self)
    }
}

pub open spec fn job_view(j: CiConfigJob) -> CiConfigJobView {
    CiConfigJobView { steps: j.steps@.map_values(|s: CiConfigJobStep| s@) }
}

impl View for CiConfigJob {
    type V = CiConfigJobView;

    open spec fn view(&self) -> CiConfigJobView {
        job_view(*self)
    }
}

pub open spec fn config_view(c: CiConfig) -> CiConfigView {
    CiConfigView {
        name: c.name@,
        jobs: c.jobs@.map_values(|e: (String, CiConfigJob)| (e.0@, e.1@)),
        on: views_of_applicabilities(c.on@),
    }
}

impl View for CiConfig {
    type V = CiConfigView;

    open spec fn view(&self) -> CiConfigView {
        config_view(*self)
    }
}

/// Why a configuration text was rejected.
pub enum YamlParseError {
    /// The YAML scanner failed; carries its diagnostic message.
    ScanError(String),
    /// The text holds no YAML document at all.
    MissingDocument,
    /// A required field (`name`, `jobs`, a job's `steps`) is absent or has
    /// the wrong shape.
    MissingField,
}

/// The mathematical shape of a [`YamlParseError`].
pub enum YamlParseErrorView {
    ScanError(Seq<char>),
    MissingDocument,
    MissingField,
}

pub open spec fn parse_error_view(e: YamlParseError) -> YamlParseErrorView {
    match e {
        YamlParseError::ScanError(msg) => YamlParseErrorView::ScanError(msg@),
        YamlParseError::MissingDocument => YamlParseErrorView::MissingDocument,
        YamlParseError::MissingField => YamlParseErrorView::MissingField,
    }
}

impl View for YamlParseError {
    type V = YamlParseErrorView;

    open spec fn view(&self) -> YamlParseErrorView {
        parse_error_view(*self)
    }
}

impl YamlParseError {
    /// The error rendered for the user.
    pub fn message(&self) -> (r: String)
        ensures
            r@ == (match self@ {
                YamlParseErrorView::ScanError(msg) => msg,
                YamlParseErrorView::MissingDocument => "No yaml document found"@,
                YamlParseErrorView::MissingField => "Missing required field"@,
            }),
    {
        match self {
            YamlParseError::ScanError(msg) => msg.clone(),
            YamlParseError::MissingDocument => "No yaml document found".to_owned(),
            YamlParseError::MissingField => "Missing required field".to_owned(),
        }
    }
}

/// Which applicability a trigger name declares: `push` narrows to the given
/// branches, `pull_request` stands alone, and any other name is unknown.
pub open spec fn spec_applicability_from(
    input: Seq<char>,
    branches: Option<Seq<Seq<char>>>,
) -> Result<ApplicabilityView, ()> {
    if input == "push"@ {
        Ok(ApplicabilityView::Push { branches })
    } else if input == "pull_request"@ {
        Ok(ApplicabilityView::PullRequest)
    } else {
        Err(())
    }
}

/// The views of an optional branch list.
pub open spec fn opt_string_views(o: Option<Vec<String>>) -> Option<Seq<Seq<char>>> {
    match o {
        Some(v) => Some(views_of_strings(v@)),
        None => None,
    }
}

/// Turns a trigger name from a workflow's `on` declaration into an
/// applicability, or reports that the name is not recognized.
pub fn applicability_from(input: &str, branches: Option<Vec<String>>) -> (r: Result<
    Applicability,
    (),
>)
    ensures
        (match r {
            Ok(a) => spec_applicability_from(input@, opt_string_views(branches)) == Ok::<
                ApplicabilityView,
                (),
            >(a@),
            Err(()) => spec_applicability_from(input@, opt_string_views(branches)) is Err,
        }),
{
    let input_string: String = input.to_owned();
    if input_string.eq(&"push".to_owned()) {
        Ok(Applicability::Push { branches })
    } else if input_string.eq(&"pull_request".to_owned()) {
        Ok(Applicability::PullRequest)
    } else {
        Err(())
    }
}

/// The text items of a list, in order; anything that is not text is
/// dropped.
pub open spec fn text_items_of(items: Seq<YamlView>) -> Seq<Seq<char>>
    decreases items.len(),
{
    if items.len() == 0 {
        Seq::empty()
    } else {
        let rest = text_items_of(items.drop_last());
        match items.last() {
            YamlView::Text(s) => rest.push(s),
            _ => rest,
        }
    }
}

/// The applicability one entry of a mapping-shaped `on` declaration
/// yields, if its key is a recognized trigger name.
pub open spec fn spec_on_entry(k: YamlView, v: YamlView) -> Option<ApplicabilityView> {
    match k {
        YamlView::Text(name) => {
            let branches = match node_get(v, "branches"@) {
                Some(YamlView::List(items)) => Some(text_items_of(items)),
                _ => None,
            };
            match spec_applicability_from(name, branches) {
                Ok(a) => Some(a),
                Err(()) => None,
            }
        },
        _ => None,
    }
}

/// The applicabilities of a sequence-shaped `on` declaration: one per
/// recognized trigger-name string, unrecognized or non-text items dropped.
pub open spec fn spec_on_from_list(items: Seq<YamlView>) -> Seq<ApplicabilityView>
    decreases items.len(),
{
    if items.len() == 0 {
        Seq::empty()
    } else {
        let rest = spec_on_from_list(items.drop_last());
        match items.last() {
            YamlView::Text(s) => match spec_applicability_from(s, None) {
                Ok(a) => rest.push(a),
                Err(()) => rest,
            },
            _ => rest,
        }
    }
}

/// The applicabilities of a mapping-shaped `on` declaration, in entry
/// order.
pub open spec fn spec_on_from_entries(
    entries: Seq<(YamlView, YamlView)>,
) -> Seq<ApplicabilityView>
    decreases entries.len(),
{
    if entries.len() == 0 {
        Seq::empty()
    } else {
        let rest = spec_on_from_entries(entries.drop_last());
        match spec_on_entry(entries.last().0, entries.last().1) {
            Some(a) => rest.push(a),
            None => rest,
        }
    }
}

/// The `on` field is polymorphic: a sequence of trigger names, or a mapping
/// from trigger name to trigger configuration. Either shape is accepted;
/// any other shape, or an absent field, yields an empty applicability
/// sequence rather than an error.
pub open spec fn spec_on_of(doc: YamlView) -> Seq<ApplicabilityView> {
    match node_get(doc, "on"@) {
        Some(YamlView::List(items)) => spec_on_from_list(items),
        Some(YamlView::Dict(entries)) => spec_on_from_entries(entries),
        _ => Seq::empty(),
    }
}

/// The step a list item yields: its `run` text and optional `name`, or
/// nothing when it has no `run` (a step that references a reusable action
/// rather than an inline command).
pub open spec fn spec_step_of(item: YamlView) -> Option<CiConfigJobStepView> {
    let name = match node_get(item, "name"@) {
        Some(YamlView::Text(s)) => Some(s),
        _ => None,
    };
    match node_get(item, "run"@) {
        Some(YamlView::Text(r)) => Some(CiConfigJobStepView { name, run: r }),
        _ => None,
    }
}

/// The steps of a job's `steps` list, in order, those without `run`
/// skipped.
pub open spec fn spec_steps_of(items: Seq<YamlView>) -> Seq<CiConfigJobStepView>
    decreases items.len(),
{
    if items.len() == 0 {
        Seq::empty()
    } else {
        let rest = spec_steps_of(items.drop_last());
        match spec_step_of(items.last()) {
            Some(step) => rest.push(step),
            None => rest,
        }
    }
}

/// The job a mapping value yields: it must hold a `steps` list.
pub open spec fn spec_job_of(v: YamlView) -> Result<CiConfigJobView, ()> {
    match node_get(v, "steps"@) {
        Some(YamlView::List(items)) => Ok(CiConfigJobView { steps: spec_steps_of(items) }),
        _ => Err(()),
    }
}

/// The jobs of the `jobs` mapping, in document order; a non-text job name
/// or a job without a `steps` list is an error, and the earliest error
/// wins.
pub open spec fn spec_jobs_of(entries: Seq<(YamlView, YamlView)>) -> Result<
    Seq<(Seq<char>, CiConfigJobView)>,
    (),
>
    decreases entries.len(),
{
    if entries.len() == 0 {
        Ok(Seq::empty())
    } else {
        match spec_jobs_of(entries.drop_last()) {
            Err(()) => Err(()),
            Ok(acc) => match entries.last().0 {
                YamlView::Text(job_name) => match spec_job_of(entries.last().1) {
                    Ok(job) => Ok(acc.push((job_name, job))),
                    Err(()) => Err(()),
                },
                _ => Err(()),
            },
        }
    }
}

/// The configuration a document yields: it must hold a text `name` and a
/// mapping `jobs`; the `on` declaration never fails, it only narrows.
pub open spec fn spec_config_of(doc: YamlView) -> Result<CiConfigView, ()> {
    match node_get(doc, "name"@) {
        Some(YamlView::Text(name)) => match node_get(doc, "jobs"@) {
            Some(YamlView::Dict(entries)) => match spec_jobs_of(entries) {
                Ok(jobs) => Ok(CiConfigView { name, jobs, on: spec_on_of(doc) }),
                Err(()) => Err(()),
            },
            _ => Err(()),
        },
        _ => Err(()),
    }
}

/// What parsing a workflow text yields: a scan failure keeps the scanner's
/// message, an empty text is a missing document, and otherwise the last
/// document of the text decides.
pub open spec fn spec_parse(text: Seq<char>) -> Result<CiConfigView, YamlParseErrorView> {
    match yaml_docs_of(text) {
        Err(msg) => Err(YamlParseErrorView::ScanError(msg)),
        Ok(docs) => if docs.len() == 0 {
            Err(YamlParseErrorView::MissingDocument)
        } else {
            match spec_config_of(docs.last()) {
                Ok(c) => Ok(c),
                Err(()) => Err(YamlParseErrorView::MissingField),
            }
        },
    }
}

/// How many items of a `steps` list carry a `run` command.
pub open spec fn runnable_count_of_list(items: Seq<YamlView>) -> nat
    decreases items.len(),
{
    if items.len() == 0 {
        0
    } else {
        runnable_count_of_list(items.drop_last()) + (if spec_step_of(items.last()) is Some {
            1nat
        } else {
            0nat
        })
    }
}

/// How many runnable steps a `jobs` mapping holds in all.
pub open spec fn runnable_count_of_jobs(entries: Seq<(YamlView, YamlView)>) -> nat
    decreases entries.len(),
{
    if entries.len() == 0 {
        0
    } else {
        runnable_count_of_jobs(entries.drop_last()) + (match node_get(
            entries.last().1,
            "steps"@,
        ) {
            Some(YamlView::List(items)) => runnable_count_of_list(items),
            _ => 0nat,
        })
    }
}

proof fn lemma_steps_count(items: Seq<YamlView>)
    ensures
        spec_steps_of(items).len() == runnable_count_of_list(items),
    decreases items.len(),
{
    if items.len() > 0 {
        lemma_steps_count(items.drop_last());
    }
}

proof fn lemma_jobs_tasks_count(
    entries: Seq<(YamlView, YamlView)>,
    jobs: Seq<(Seq<char>, CiConfigJobView)>,
    on: Seq<ApplicabilityView>,
)
    requires
        spec_jobs_of(entries) == Ok::<_, ()>(jobs),
    ensures
        super::github_tasks_from_jobs(jobs, on).len() == runnable_count_of_jobs(entries),
    decreases entries.len(),
{
    if entries.len() == 0 {
        assert(super::github_tasks_from_jobs(jobs, on).len() == 0);
    } else {
        let acc = spec_jobs_of(entries.drop_last()).unwrap();
        lemma_jobs_tasks_count(entries.drop_last(), acc, on);
        assert(jobs.drop_last() =~= acc);
        let job = jobs.last().1;
        match node_get(entries.last().1, "steps"@) {
            Some(YamlView::List(items)) => {
                assert(job.steps == spec_steps_of(items));
                lemma_steps_count(items);
            },
            _ => {
                assert(false);
            },
        }
    }
}

/// A workflow's task list has exactly one task for each step that carries
/// a `run` command, however many steps lack one: parsing drops a step
/// without `run` entirely rather than keeping an empty task.
pub proof fn lemma_all_tasks_count_runnable_steps(doc: YamlView, c: CiConfigView)
    requires
        spec_config_of(doc) == Ok::<_, ()>(c),
    ensures
        (match node_get(doc, "jobs"@) {
            Some(YamlView::Dict(entries)) => super::github_all_tasks(c).len()
                == runnable_count_of_jobs(entries),
            _ => false,
        }),
{
    match node_get(doc, "jobs"@) {
        Some(YamlView::Dict(entries)) => {
            lemma_jobs_tasks_count(entries, c.jobs, c.on);
        },
        _ => {
            assert(false);
        },
    }
}

/// Parsing the same workflow text twice yields structurally identical
/// configurations, and hence structurally identical task lists.
pub proof fn lemma_parse_deterministic(
    text: Seq<char>,
    r1: Result<CiConfigView, YamlParseErrorView>,
    r2: Result<CiConfigView, YamlParseErrorView>,
)
    requires
        r1 == spec_parse(text),
        r2 == spec_parse(text),
    ensures
        r1 == r2,
        (match (r1, r2) {
            (Ok(c1), Ok(c2)) => super::github_all_tasks(c1) == super::github_all_tasks(c2),
            _ => true,
        }),
{
}

fn parse_branches(items: &Vec<YamlValue>) -> (r: Vec<String>)
    ensures
        views_of_strings(r@) == text_items_of(views_of_nodes(items@)),
{
    let ghost item_views = views_of_nodes(items@);
    let mut out: Vec<String> = Vec::new();
    proof {
        assert(views_of_strings(out@) =~= text_items_of(item_views.take(0)));
    }
    let mut i: usize = 0;
    while i < items.len()
        invariant
            0 <= i <= items@.len(),
            item_views == views_of_nodes(items@),
            item_views.len() == items@.len(),
            views_of_strings(out@) == text_items_of(item_views.take(i as int)),
        decreases items@.len() - i,
    {
        let ghost out_prev = out@;
        proof {
            assert(item_views[i as int] == items@[i as int]@);
            assert(item_views.take(i + 1).drop_last() =~= item_views.take(i as int));
            assert(item_views.take(i + 1).last() == item_views[i as int]);
        }
        match items[i].as_text() {
            Some(s) => {
                out.push(s.clone());
                proof {
                    assert(views_of_strings(out@) =~= views_of_strings(out_prev).push(s@));
                    assert(views_of_strings(out@) =~= text_items_of(item_views.take(i + 1)));
                }
            },
            None => {
                proof {
                    assert(views_of_strings(out@) =~= text_items_of(item_views.take(i + 1)));
                }
            },
        }
        i = i + 1;
    }
    proof {
        assert(item_views.take(item_views.len() as int) =~= item_views);
    }
    out
}

fn parse_on_list(items: &Vec<YamlValue>) -> (r: Vec<Applicability>)
    ensures
        views_of_applicabilities(r@) == spec_on_from_list(views_of_nodes(items@)),
{
    let ghost item_views = views_of_nodes(items@);
    let mut out: Vec<Applicability> = Vec::new();
    proof {
        assert(views_of_applicabilities(out@) =~= spec_on_from_list(item_views.take(0)));
    }
    let mut i: usize = 0;
    while i < items.len()
        invariant
            0 <= i <= items@.len(),
            item_views == views_of_nodes(items@),
            item_views.len() == items@.len(),
            views_of_applicabilities(out@) == spec_on_from_list(item_views.take(i as int)),
        decreases items@.len() - i,
    {
        let ghost out_prev = out@;
        proof {
            assert(item_views[i as int] == items@[i as int]@);
            assert(item_views.take(i + 1).drop_last() =~= item_views.take(i as int));
            assert(item_views.take(i + 1).last() == item_views[i as int]);
        }
        match items[i].as_text() {
            Some(s) => {
                match applicability_from(s.as_str(), None) {
                    Ok(a) => {
                        out.push(a);
                        proof {
                            assert(views_of_applicabilities(out@) =~= views_of_applicabilities(
                                out_prev,
                            ).push(a@));
                            assert(views_of_applicabilities(out@) =~= spec_on_from_list(
                                item_views.take(i + 1),
                            ));
                        }
                    },
                    Err(()) => {
                        proof {
                            assert(views_of_applicabilities(out@) =~= spec_on_from_list(
                                item_views.take(i + 1),
                            ));
                        }
                    },
                }
            },
            None => {
                proof {
                    assert(views_of_applicabilities(out@) =~= spec_on_from_list(
                        item_views.take(i + 1),
                    ));
                }
            },
        }
        i = i + 1;
    }
    proof {
        assert(item_views.take(item_views.len() as int) =~= item_views);
    }
    out
}

fn parse_on_entries(entries: &Vec<(YamlValue, YamlValue)>) -> (r: Vec<Applicability>)
    ensures
        views_of_applicabilities(r@) == spec_on_from_entries(views_of_entries(entries@)),
{
    let ghost entry_views = views_of_entries(entries@);
    let mut out: Vec<Applicability> = Vec::new();
    proof {
        assert(views_of_applicabilities(out@) =~= spec_on_from_entries(entry_views.take(0)));
    }
    let mut i: usize = 0;
    while i < entries.len()
        invariant
            0 <= i <= entries@.len(),
            entry_views == views_of_entries(entries@),
            entry_views.len() == entries@.len(),
            views_of_applicabilities(out@) == spec_on_from_entries(entry_views.take(i as int)),
        decreases entries@.len() - i,
    {
        let ghost out_prev = out@;
        proof {
            assert(entry_views[i as int] == (entries@[i as int].0@, entries@[i as int].1@));
            assert(entry_views.take(i + 1).drop_last() =~= entry_views.take(i as int));
            assert(entry_views.take(i + 1).last() == entry_views[i as int]);
        }
        match entries[i].0.as_text() {
            Some(name) => {
                let value = &entries[i].1;
                let branches: Option<Vec<String>> = match value.get("branches") {
                    Some(node) => match node.as_list() {
                        Some(branch_items) => Some(parse_branches(branch_items)),
                        None => None,
                    },
                    None => None,
                };
                proof {
                    assert(opt_string_views(branches) == (match node_get(
                        value@,
                        "branches"@,
                    ) {
                        Some(YamlView::List(its)) => Some(text_items_of(its)),
                        _ => None,
                    }));
                }
                match applicability_from(name.as_str(), branches) {
                    Ok(a) => {
                        out.push(a);
                        proof {
                            assert(spec_on_entry(entry_views[i as int].0, entry_views[i as int].1)
                                == Some(a@));
                            assert(views_of_applicabilities(out@) =~= views_of_applicabilities(
                                out_prev,
                            ).push(a@));
                            assert(views_of_applicabilities(out@) =~= spec_on_from_entries(
                                entry_views.take(i + 1),
                            ));
                        }
                    },
                    Err(()) => {
                        proof {
                            assert(spec_on_entry(entry_views[i as int].0, entry_views[i as int].1)
                                is None);
                            assert(views_of_applicabilities(out@) =~= spec_on_from_entries(
                                entry_views.take(i + 1),
                            ));
                        }
                    },
                }
            },
            None => {
                proof {
                    assert(spec_on_entry(entry_views[i as int].0, entry_views[i as int].1)
                        is None);
                    assert(views_of_applicabilities(out@) =~= spec_on_from_entries(
                        entry_views.take(i + 1),
                    ));
                }
            },
        }
        i = i + 1;
    }
    proof {
        assert(entry_views.take(entry_views.len() as int) =~= entry_views);
    }
    out
}

fn parse_on(doc: &YamlValue) -> (r: Vec<Applicability>)
    ensures
        views_of_applicabilities(r@) == spec_on_of(doc@),
{
    match doc.get("on") {
        Some(node) => {
            match node.as_list() {
                Some(items) => parse_on_list(items),
                None => {
                    match node.as_entries() {
                        Some(entries) => parse_on_entries(entries),
                        None => {
                            proof {
                                assert(views_of_applicabilities(Seq::<Applicability>::empty())
                                    =~= Seq::<ApplicabilityView>::empty());
                            }
                            Vec::new()
                        },
                    }
                },
            }
        },
        None => {
            proof {
                assert(views_of_applicabilities(Seq::<Applicability>::empty())
                    =~= Seq::<ApplicabilityView>::empty());
            }
            Vec::new()
        },
    }
}

fn parse_steps(items: &Vec<YamlValue>) -> (r: Vec<CiConfigJobStep>)
    ensures
        r@.map_values(|s: CiConfigJobStep| s@) == spec_steps_of(views_of_nodes(items@)),
{
    let ghost item_views = views_of_nodes(items@);
    let mut out: Vec<CiConfigJobStep> = Vec::new();
    proof {
        assert(out@.map_values(|s: CiConfigJobStep| s@) =~= spec_steps_of(item_views.take(0)));
    }
    let mut i: usize = 0;
    while i < items.len()
        invariant
            0 <= i <= items@.len(),
            item_views == views_of_nodes(items@),
            item_views.len() == items@.len(),
            out@.map_values(|s: CiConfigJobStep| s@) == spec_steps_of(item_views.take(i as int)),
        decreases items@.len() - i,
    {
        let ghost out_prev = out@;
        proof {
            assert(item_views[i as int] == items@[i as int]@);
            assert(item_views.take(i + 1).drop_last() =~= item_views.take(i as int));
            assert(item_views.take(i + 1).last() == item_views[i as int]);
        }
        let item = &items[i];
        let name: Option<String> = match item.get("name") {
            Some(node) => match node.as_text() {
                Some(s) => Some(s.clone()),
                None => None,
            },
            None => None,
        };
        let run: Option<String> = match item.get("run") {
            Some(node) => match node.as_text() {
                Some(s) => Some(s.clone()),
                None => None,
            },
            None => None,
        };
        match run {
            Some(run_text) => {
                let step = CiConfigJobStep { name, run: run_text };
                proof {
                    assert(spec_step_of(item_views[i as int]) == Some(step@));
                }
                out.push(step);
                proof {
                    assert(out@.map_values(|s: CiConfigJobStep| s@) =~= out_prev.map_values(
                        |s: CiConfigJobStep| s@,
                    ).push(spec_step_of(item_views[i as int]).unwrap()));
                    assert(out@.map_values(|s: CiConfigJobStep| s@) =~= spec_steps_of(
                        item_views.take(i + 1),
                    ));
                }
            },
            None => {
                proof {
                    assert(spec_step_of(item_views[i as int]) is None);
                    assert(out@.map_values(|s: CiConfigJobStep| s@) =~= spec_steps_of(
                        item_views.take(i + 1),
                    ));
                }
            },
        }
        i = i + 1;
    }
    proof {
        assert(item_views.take(item_views.len() as int) =~= item_views);
    }
    out
}

proof fn lemma_jobs_error_persists(entries: Seq<(YamlView, YamlView)>, i: int)
    requires
        0 <= i <= entries.len(),
        spec_jobs_of(entries.take(i)) is Err,
    ensures
        spec_jobs_of(entries) is Err,
    decreases entries.len() - i,
{
    if i < entries.len() {
        assert(entries.take(i + 1).drop_last() =~= entries.take(i));
        lemma_jobs_error_persists(entries, i + 1);
    } else {
        assert(entries.take(i) =~= entries);
    }
}

fn parse_jobs(entries: &Vec<(YamlValue, YamlValue)>) -> (r: Result<
    Vec<(String, CiConfigJob)>,
    YamlParseError,
>)
    ensures
        (match r {
            Ok(jobs) => spec_jobs_of(views_of_entries(entries@)) == Ok::<_, ()>(
                jobs@.map_values(|e: (String, CiConfigJob)| (e.0@, e.1@)),
            ),
            Err(e) => spec_jobs_of(views_of_entries(entries@)) is Err && e@
                == YamlParseErrorView::MissingField,
        }),
{
    let ghost entry_views = views_of_entries(entries@);
    let mut out: Vec<(String, CiConfigJob)> = Vec::new();
    proof {
        assert(out@.map_values(|e: (String, CiConfigJob)| (e.0@, e.1@)) =~= Seq::<
            (Seq<char>, CiConfigJobView),
        >::empty());
        assert(spec_jobs_of(entry_views.take(0)) == Ok::<_, ()>(Seq::<
            (Seq<char>, CiConfigJobView),
        >::empty()));
    }
    let mut i: usize = 0;
    while i < entries.len()
        invariant
            0 <= i <= entries@.len(),
            entry_views == views_of_entries(entries@),
            entry_views.len() == entries@.len(),
            spec_jobs_of(entry_views.take(i as int)) == Ok::<_, ()>(
                out@.map_values(|e: (String, CiConfigJob)| (e.0@, e.1@)),
            ),
        decreases entries@.len() - i,
    {
        let ghost out_prev = out@;
        proof {
            assert(entry_views[i as int] == (entries@[i as int].0@, entries@[i as int].1@));
            assert(entry_views.take(i + 1).drop_last() =~= entry_views.take(i as int));
            assert(entry_views.take(i + 1).last() == entry_views[i as int]);
        }
        let job_name: String = match entries[i].0.as_text() {
            Some(s) => s.clone(),
            None => {
                proof {
                    lemma_jobs_error_persists(entry_views, i + 1);
                }
                return Err(YamlParseError::MissingField);
            },
        };
        let value = &entries[i].1;
        let steps_items = match value.get("steps") {
            Some(node) => match node.as_list() {
                Some(items) => items,
                None => {
                    proof {
                        assert(spec_job_of(entry_views[i as int].1) is Err);
                        lemma_jobs_error_persists(entry_views, i + 1);
                    }
                    return Err(YamlParseError::MissingField);
                },
            },
            None => {
                proof {
                    assert(spec_job_of(entry_views[i as int].1) is Err);
                    lemma_jobs_error_persists(entry_views, i + 1);
                }
                return Err(YamlParseError::MissingField);
            },
        };
        let job = CiConfigJob { steps: parse_steps(steps_items) };
        proof {
            assert(spec_job_of(entry_views[i as int].1) == Ok::<_, ()>(job@));
        }
        out.push((job_name, job));
        proof {
            assert(out@.map_values(|e: (String, CiConfigJob)| (e.0@, e.1@)) =~= out_prev.map_values(
                |e: (String, CiConfigJob)| (e.0@, e.1@),
            ).push((entry_views[i as int].0->Text_0, job@)));
            assert(spec_jobs_of(entry_views.take(i + 1)) == Ok::<_, ()>(
                out@.map_values(|e: (String, CiConfigJob)| (e.0@, e.1@)),
            ));
        }
        i = i + 1;
    }
    proof {
        assert(entry_views.take(entry_views.len() as int) =~= entry_views);
    }
    Ok(out)
}

fn parse_config(doc: &YamlValue) -> (r: Result<CiConfig, YamlParseError>)
    ensures
        (match r {
            Ok(c) => spec_config_of(doc@) == Ok::<_, ()>(c@),
            Err(e) => spec_config_of(doc@) is Err && e@ == YamlParseErrorView::MissingField,
        }),
{
    let name: String = match doc.get("name") {
        Some(node) => match node.as_text() {
            Some(s) => s.clone(),
            None => {
                return Err(YamlParseError::MissingField);
            },
        },
        None => {
            return Err(YamlParseError::MissingField);
        },
    };
    let jobs_entries = match doc.get("jobs") {
        Some(node) => match node.as_entries() {
            Some(entries) => entries,
            None => {
                return Err(YamlParseError::MissingField);
            },
        },
        None => {
            return Err(YamlParseError::MissingField);
        },
    };
    let on = parse_on(doc);
    let jobs = match parse_jobs(jobs_entries) {
        Ok(jobs) => jobs,
        Err(e) => {
            return Err(e);
        },
    };
    let config = CiConfig { name, jobs, on };
    proof {
        assert(config@ == (match spec_config_of(doc@) {
            Ok(c) => c,
            Err(()) => config@,
        }));
    }
    Ok(config)
}

impl CiConfig {
    /// Parses a workflow text. The text must scan as YAML, hold at least
    /// one document, and its last document must hold a text `name` and a
    /// `jobs` mapping whose jobs each hold a `steps` list; each error names
    /// the first of these that fails.
    pub fn try_from(input: &str) -> (r: Result<CiConfig, YamlParseError>)
        ensures
            (match r {
                Ok(c) => spec_parse(input@) == Ok::<_, YamlParseErrorView>(c@),
                Err(e) => spec_parse(input@) == Err::<CiConfigView, _>(e@),
            }),
    {
        let mut docs = match crate::yaml::load_yaml_docs(input) {
            Ok(docs) => docs,
            Err(msg) => {
                return Err(YamlParseError::ScanError(msg));
            },
        };
        let ghost doc_views = views_of_nodes(docs@);
        match docs.pop() {
            None => Err(YamlParseError::MissingDocument),
            Some(doc) => {
                proof {
                    assert(doc@ == doc_views.last());
                }
                parse_config(&doc)
            },
        }
    }
}

} // verus!
