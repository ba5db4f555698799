//! The GitLab-CI-like configuration format.

use vstd::prelude::*;
use crate::text::views_of_strings;
use crate::ci::github::{YamlParseError, YamlParseErrorView};
use crate::yaml::{YamlValue, YamlView, dict_lookup, views_of_entries, views_of_nodes, yaml_docs_of};

verus! {

/// A parsed GitLab file. Every top-level key that is not one of the
/// reserved keys (`image`, `stages`) is treated as a job definition, in
/// document order.
pub struct CiConfig {
    pub image: Option<String>,
    pub stages: Option<Vec<String>>,
    pub jobs: Vec<(String, CiConfigJob)>,
}

/// One job definition.
///
/// Although all actual jobs have a script, the field is optional so that
/// non-job entries at the root (a `cache` key, say) still parse; a job
/// without a script contributes no tasks.
pub struct CiConfigJob {
    pub script: Option<Vec<String>>,
}

/// The mathematical shape of a [`CiConfigJob`].
pub struct CiConfigJobView {
    pub script: Option<Seq<Seq<char>>>,
}

/// The mathematical shape of a [`CiConfig`].
pub struct CiConfigView {
    pub image: Option<Seq<char>>,
    pub stages: Option<Seq<Seq<char>>>,
    pub jobs: Seq<(Seq<char>, CiConfigJobView)>,
}

pub open spec fn job_view(j: CiConfigJob) -> CiConfigJobView {
    CiConfigJobView {
        script: match j.script {
            Some(commands) => Some(views_of_strings(commands@)),
            None => None,
        },
    }
}

impl View for CiConfigJob {
    type V = CiConfigJobView;

    open spec fn view(&self) -> CiConfigJobView {
        job_view(*self)
    }
}

pub open spec fn config_view(c: CiConfig) -> CiConfigView {
    CiConfigView {
        image: match c.image {
            Some(image) => Some(image@),
            None => None,
        },
        stages: match c.stages {
            Some(stages) => Some(views_of_strings(stages@)),
            None => None,
        },
        jobs: c.jobs@.map_values(|e: (String, CiConfigJob)| (e.0@, e.1@)),
    }
}

impl View for CiConfig {
    type V = CiConfigView;

    open spec fn view(&self) -> CiConfigView {
        config_view(*self)
    }
}

/// The texts of a list, in order; a single non-text item spoils the whole
/// list.
pub open spec fn texts_strict_of(items: Seq<YamlView>) -> Option<Seq<Seq<char>>>
    decreases items.len(),
{
    if items.len() == 0 {
        Some(Seq::empty())
    } else {
        match texts_strict_of(items.drop_last()) {
            None => None,
            Some(acc) => match items.last() {
                YamlView::Text(s) => Some(acc.push(s)),
                _ => None,
            },
        }
    }
}

/// The job a top-level value yields: it must be a mapping; its `script`,
/// when present and not null, must be a list of texts.
pub open spec fn spec_job_of(v: YamlView) -> Result<CiConfigJobView, ()> {
    match v {
        YamlView::Dict(entries) => match dict_lookup(entries, "script"@) {
            Some(YamlView::List(items)) => match texts_strict_of(items) {
                Some(commands) => Ok(CiConfigJobView { script: Some(commands) }),
                None => Err(()),
            },
            Some(YamlView::Null) => Ok(CiConfigJobView { script: None }),
            Some(_) => Err(()),
            None => Ok(CiConfigJobView { script: None }),
        },
        _ => Err(()),
    }
}

/// Folds one top-level entry into the configuration built so far: `image`
/// and `stages` are the reserved keys; every other key is a job.
pub open spec fn spec_entry_step(
    acc: CiConfigView,
    key: Seq<char>,
    v: YamlView,
) -> Result<CiConfigView, ()> {
    if key == "image"@ {
        match v {
            YamlView::Text(s) => Ok(
                CiConfigView { image: Some(s), stages: acc.stages, jobs: acc.jobs },
            ),
            YamlView::Null => Ok(CiConfigView { image: None, stages: acc.stages, jobs: acc.jobs }),
            _ => Err(()),
        }
    } else if key == "stages"@ {
        match v {
            YamlView::List(items) => match texts_strict_of(items) {
                Some(stages) => Ok(
                    CiConfigView { image: acc.image, stages: Some(stages), jobs: acc.jobs },
                ),
                None => Err(()),
            },
            YamlView::Null => Ok(CiConfigView { image: acc.image, stages: None, jobs: acc.jobs }),
            _ => Err(()),
        }
    } else {
        match spec_job_of(v) {
            Ok(job) => Ok(
                CiConfigView {
                    image: acc.image,
                    stages: acc.stages,
                    jobs: acc.jobs.push((key, job)),
                },
            ),
            Err(()) => Err(()),
        }
    }
}

/// The configuration the top-level entries yield, folded in document
/// order; a non-text key is an error, and the earliest error wins.
pub open spec fn spec_config_entries(entries: Seq<(YamlView, YamlView)>) -> Result<
    CiConfigView,
    (),
>
    decreases entries.len(),
{
    if entries.len() == 0 {
        Ok(CiConfigView { image: None, stages: None, jobs: Seq::empty() })
    } else {
        match spec_config_entries(entries.drop_last()) {
            Err(()) => Err(()),
            Ok(acc) => match entries.last().0 {
                YamlView::Text(key) => spec_entry_step(acc, key, entries.last().1),
                _ => Err(()),
            },
        }
    }
}

/// The configuration a document yields: it must be a mapping at the top
/// level.
pub open spec fn spec_gitlab_config_of(doc: YamlView) -> Result<CiConfigView, ()> {
    match doc {
        YamlView::Dict(entries) => spec_config_entries(entries),
        _ => Err(()),
    }
}

/// What parsing a GitLab text yields, under the same error taxonomy as the
/// workflow parser.
pub open spec fn spec_parse(text: Seq<char>) -> Result<CiConfigView, YamlParseErrorView> {
    match yaml_docs_of(text) {
        Err(msg) => Err(YamlParseErrorView::ScanError(msg)),
        Ok(docs) => if docs.len() == 0 {
            Err(YamlParseErrorView::MissingDocument)
        } else {
            match spec_gitlab_config_of(docs.last()) {
                Ok(c) => Ok(c),
                Err(()) => Err(YamlParseErrorView::MissingField),
            }
        },
    }
}

/// Parsing the same GitLab text twice yields structurally identical
/// configurations, and hence structurally identical task lists.
pub proof fn lemma_parse_deterministic(
    text: Seq<char>,
    r1: Result<CiConfigView, YamlParseErrorView>,
    r2: Result<CiConfigView, YamlParseErrorView>,
)
    requires
        r1 == spec_parse(text),
        r2 == spec_parse(text),
    ensures
        r1 == r2,
        (match (r1, r2) {
            (Ok(c1), Ok(c2)) => crate::ci::gitlab_all_tasks(c1) == crate::ci::gitlab_all_tasks(
                c2,
            ),
            _ => true,
        }),
{
}

proof fn lemma_entries_error_persists(entries: Seq<(YamlView, YamlView)>, i: int)
    requires
        0 <= i <= entries.len(),
        spec_config_entries(entries.take(i)) is Err,
    ensures
        spec_config_entries(entries) is Err,
    decreases entries.len() - i,
{
    if i < entries.len() {
        assert(entries.take(i + 1).drop_last() =~= entries.take(i));
        lemma_entries_error_persists(entries, i + 1);
    } else {
        assert(entries.take(i) =~= entries);
    }
}

fn parse_command_list(items: &Vec<YamlValue>) -> (r: Result<Vec<String>, ()>)
    ensures
        (match r {
            Ok(commands) => texts_strict_of(views_of_nodes(items@)) == Some(
                views_of_strings(commands@),
            ),
            Err(()) => texts_strict_of(views_of_nodes(items@)) is None,
        }),
{
    let ghost item_views = views_of_nodes(items@);
    let mut out: Vec<String> = Vec::new();
    proof {
        assert(texts_strict_of(item_views.take(0)) == Some(views_of_strings(out@)));
        assert(views_of_strings(out@) =~= Seq::<Seq<char>>::empty());
    }
    let mut i: usize = 0;
    while i < items.len()
        invariant
            0 <= i <= items@.len(),
            item_views == views_of_nodes(items@),
            item_views.len() == items@.len(),
            texts_strict_of(item_views.take(i as int)) == Some(views_of_strings(out@)),
        decreases items@.len() - i,
    {
        let ghost out_prev = out@;
        proof {
            assert(item_views[i as int] == items@[i as int]@);
            assert(item_views.take(i + 1).drop_last() =~= item_views.take(i as int));
            assert(item_views.take(i + 1).last() == item_views[i as int]);
        }
        match items[i].as_text() {
            Some(s) => {
                out.push(s.clone());
                proof {
                    assert(views_of_strings(out@) =~= views_of_strings(out_prev).push(s@));
                }
            },
            None => {
                proof {
                    assert(texts_strict_of(item_views.take(i + 1)) is None);
                    lemma_texts_strict_none_persists(item_views, i + 1);
                }
                return Err(());
            },
        }
        i = i + 1;
    }
    proof {
        assert(item_views.take(item_views.len() as int) =~= item_views);
    }
    Ok(out)
}

proof fn lemma_texts_strict_none_persists(items: Seq<YamlView>, i: int)
    requires
        0 <= i <= items.len(),
        texts_strict_of(items.take(i)) is None,
    ensures
        texts_strict_of(items) is None,
    decreases items.len() - i,
{
    if i < items.len() {
        assert(items.take(i + 1).drop_last() =~= items.take(i));
        lemma_texts_strict_none_persists(items, i + 1);
    } else {
        assert(items.take(i) =~= items);
    }
}

fn parse_job(v: &YamlValue) -> (r: Result<CiConfigJob, ()>)
    ensures
        (match r {
            Ok(job) => spec_job_of(v@) == Ok::<_, ()>(job@),
            Err(()) => spec_job_of(v@) is Err,
        }),
{
    match v.as_entries() {
        Some(_) => {},
        None => {
            return Err(());
        },
    }
    match v.get("script") {
        Some(node) => {
            match node.as_list() {
                Some(items) => match parse_command_list(items) {
                    Ok(commands) => Ok(CiConfigJob { script: Some(commands) }),
                    Err(()) => Err(()),
                },
                None => {
                    if node.is_null() {
                        Ok(CiConfigJob { script: None })
                    } else {
                        Err(())
                    }
                },
            }
        },
        None => Ok(CiConfigJob { script: None }),
    }
}

impl CiConfig {
    /// Parses a GitLab text. The text must scan as YAML, hold at least one
    /// document, and its last document must be a mapping whose non-reserved
    /// entries are jobs; each error names the first of these that fails.
    pub fn try_from(input: &str) -> (r: Result<CiConfig, YamlParseError>)
        ensures
            (match r {
                Ok(c) => spec_parse(input@) == Ok::<_, YamlParseErrorView>(c@),
                Err(e) => spec_parse(input@) == Err::<CiConfigView, _>(e@),
            }),
    {
        let mut docs = match crate::yaml::load_yaml_docs(input) {
            Ok(docs) => docs,
            Err(msg) => {
                return Err(YamlParseError::ScanError(msg));
            },
        };
        let ghost doc_views = views_of_nodes(docs@);
        let doc = match docs.pop() {
            Some(doc) => doc,
            None => {
                return Err(YamlParseError::MissingDocument);
            },
        };
        proof {
            assert(doc@ == doc_views.last());
        }
        let entries = match doc.as_entries() {
            Some(entries) => entries,
            None => {
                return Err(YamlParseError::MissingField);
            },
        };
        let ghost entry_views = views_of_entries(entries@);
        let mut image: Option<String> = None;
        let mut stages: Option<Vec<String>> = None;
        let mut jobs: Vec<(String, CiConfigJob)> = Vec::new();
        let ghost empty_config = CiConfigView { image: None, stages: None, jobs: Seq::empty() };
        proof {
            assert(jobs@.map_values(|e: (String, CiConfigJob)| (e.0@, e.1@)) =~= Seq::<
                (Seq<char>, CiConfigJobView),
            >::empty());
            assert(spec_config_entries(entry_views.take(0)) == Ok::<_, ()>(empty_config));
        }
        let image_key: String = "image".to_owned();
        let stages_key: String = "stages".to_owned();
        let mut i: usize = 0;
        while i < entries.len()
            invariant
                0 <= i <= entries@.len(),
                entry_views == views_of_entries(entries@),
                entry_views.len() == entries@.len(),
                yaml_docs_of(input@) == Ok::<Seq<YamlView>, Seq<char>>(doc_views),
                doc_views.len() > 0,
                doc_views.last() == YamlView::Dict(entry_views),
                image_key@ == "image"@,
                stages_key@ == "stages"@,
                spec_config_entries(entry_views.take(i as int)) == Ok::<_, ()>(CiConfigView {
                    image: match image {
                        Some(s) => Some(s@),
                        None => None,
                    },
                    stages: match stages {
                        Some(v) => Some(views_of_strings(v@)),
                        None => None,
                    },
                    jobs: jobs@.map_values(|e: (String, CiConfigJob)| (e.0@, e.1@)),
                }),
            decreases entries@.len() - i,
        {
            let ghost jobs_prev = jobs@;
            proof {
                assert(entry_views[i as int] == (entries@[i as int].0@, entries@[i as int].1@));
                assert(entry_views.take(i + 1).drop_last() =~= entry_views.take(i as int));
                assert(entry_views.take(i + 1).last() == entry_views[i as int]);
            }
            let key: &String = match entries[i].0.as_text() {
                Some(s) => s,
                None => {
                    proof {
                        lemma_entries_error_persists(entry_views, i + 1);
                    }
                    return Err(YamlParseError::MissingField);
                },
            };
            let value = &entries[i].1;
            if key.eq(&image_key) {
                match value.as_text() {
                    Some(s) => {
                        image = Some(s.clone());
                    },
                    None => {
                        if value.is_null() {
                            image = None;
                        } else {
                            proof {
                                lemma_entries_error_persists(entry_views, i + 1);
                            }
                            return Err(YamlParseError::MissingField);
                        }
                    },
                }
            } else if key.eq(&stages_key) {
                match value.as_list() {
                    Some(items) => match parse_command_list(items) {
                        Ok(stage_names) => {
                            stages = Some(stage_names);
                        },
                        Err(()) => {
                            proof {
                                lemma_entries_error_persists(entry_views, i + 1);
                            }
                            return Err(YamlParseError::MissingField);
                        },
                    },
                    None => {
                        if value.is_null() {
                            stages = None;
                        } else {
                            proof {
                                lemma_entries_error_persists(entry_views, i + 1);
                            }
                            return Err(YamlParseError::MissingField);
                        }
                    },
                }
            } else {
                match parse_job(value) {
                    Ok(job) => {
                        jobs.push((key.clone(), job));
                        proof {
                            assert(jobs@.map_values(|e: (String, CiConfigJob)| (e.0@, e.1@))
                                =~= jobs_prev.map_values(
                                |e: (String, CiConfigJob)| (e.0@, e.1@),
                            ).push((key@, spec_job_of(entry_views[i as int].1).unwrap())));
                        }
                    },
                    Err(()) => {
                        proof {
                            lemma_entries_error_persists(entry_views, i + 1);
                        }
                        return Err(YamlParseError::MissingField);
                    },
                }
            }
            i = i + 1;
        }
        proof {
            assert(entry_views.take(entry_views.len() as int) =~= entry_views);
        }
        let config = CiConfig { image, stages, jobs };
        proof {
            assert(spec_gitlab_config_of(doc_views.last()) == Ok::<_, ()>(config@));
        }
        Ok(config)
    }
}

} // verus!
