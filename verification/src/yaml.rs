//! A plain model of a parsed YAML document.
//!
//! The scanning itself is done by the `yaml_rust` crate behind a trusted
//! wrapper; everything the CI parsers read afterwards is held in the
//! [`YamlValue`] tree below, as plain strings, lists and keyed entry lists,
//! so that the parsing logic over it can be verified.

use vstd::prelude::*;

verus! {

/// One node of a YAML document.
///
/// `Dict` keeps its entries in document order, with the keys as full nodes
/// (a YAML mapping key need not be a string). Scalars that are not plain
/// strings (numbers, booleans, anchors) are collapsed into `Other`: the CI
/// formats in scope never read them, they only need to be told apart from
/// text, lists, mappings and null.
pub enum YamlValue {
    Text(String),
    List(Vec<YamlValue>),
    Dict(Vec<(YamlValue, YamlValue)>),
    Null,
    Other,
}

/// The mathematical shape of a [`YamlValue`].
pub enum YamlView {
    Text(Seq<char>),
    List(Seq<YamlView>),
    Dict(Seq<(YamlView, YamlView)>),
    Null,
    Other,
}

/// The view of one node, written as a free function so that it can recurse
/// into the children held by the node's vectors.
pub closed spec fn node_view(n: YamlValue) -> YamlView
    decreases n,
{
    match n {
        YamlValue::Text(s) => YamlView::Text(s@),
        YamlValue::List(items) => YamlView::List(
            Seq::new(
                items@.len(),
                |i: int|
                    if 0 <= i < items@.len() {
                        node_view(items@[i])
                    } else {
                        YamlView::Other
                    },
            ),
        ),
        YamlValue::Dict(entries) => YamlView::Dict(
            Seq::new(
                entries@.len(),
                |i: int|
                    if 0 <= i < entries@.len() {
                        (node_view(entries@[i].0), node_view(entries@[i].1))
                    } else {
                        (YamlView::Other, YamlView::Other)
                    },
            ),
        ),
        YamlValue::Null => YamlView::Null,
        YamlValue::Other => YamlView::Other,
    }
}

impl View for YamlValue {
    type V = YamlView;

    open spec fn view(&self) -> YamlView {
        node_view(*self)
    }
}

/// The views of a vector of nodes, in order.
pub open spec fn views_of_nodes(docs: Seq<YamlValue>) -> Seq<YamlView> {
    docs.map_values(|d: YamlValue| d@)
}

/// The views of a vector of mapping entries, in order.
pub open spec fn views_of_entries(entries: Seq<(YamlValue, YamlValue)>) -> Seq<
    (YamlView, YamlView),
> {
    entries.map_values(|p: (YamlValue, YamlValue)| (p.0@, p.1@))
}

/// The value stored under the first entry whose key is the text `key`, if
/// any. A mapping built by the YAML loader has distinct keys, so the first
/// match is the only one.
pub open spec fn dict_lookup(entries: Seq<(YamlView, YamlView)>, key: Seq<char>) -> Option<
    YamlView,
>
    decreases entries.len(),
{
    if entries.len() == 0 {
        None
    } else if entries[0].0 == YamlView::Text(key) {
        Some(entries[0].1)
    } else {
        dict_lookup(entries.drop_first(), key)
    }
}

/// Looking a key up in a node: entries of a mapping, nothing anywhere else.
pub open spec fn node_get(v: YamlView, key: Seq<char>) -> Option<YamlView> {
    match v {
        YamlView::Dict(entries) => dict_lookup(entries, key),
        _ => None,
    }
}

proof fn lemma_dict_lookup_found(
    entries: Seq<(YamlView, YamlView)>,
    key: Seq<char>,
    i: int,
)
    requires
        0 <= i < entries.len(),
        forall|j: int| 0 <= j < i ==> entries[j].0 != YamlView::Text(key),
        entries[i].0 == YamlView::Text(key),
    ensures
        dict_lookup(entries, key) == Some(entries[i].1),
    decreases i,
{
    if i > 0 {
        lemma_dict_lookup_found(entries.drop_first(), key, i - 1);
    }
}

proof fn lemma_dict_lookup_missing(entries: Seq<(YamlView, YamlView)>, key: Seq<char>)
    requires
        forall|j: int| 0 <= j < entries.len() ==> entries[j].0 != YamlView::Text(key),
    ensures
        dict_lookup(entries, key) is None,
    decreases entries.len(),
{
    if entries.len() > 0 {
        lemma_dict_lookup_missing(entries.drop_first(), key);
    }
}

impl YamlValue {
    /// The text of a string node.
    pub fn as_text(&self) -> (r: Option<&String>)
        ensures
            (match r {
                Some(s) => self@ == YamlView::Text(s@),
                None => !(self@ is Text),
            }),
    {
        match self {
            YamlValue::Text(s) => Some(s),
            _ => None,
        }
    }

    /// The items of a list node.
    pub fn as_list(&self) -> (r: Option<&Vec<YamlValue>>)
        ensures
            (match r {
                Some(items) => self@ == YamlView::List(views_of_nodes(items@)),
                None => !(self@ is List),
            }),
    {
        match self {
            YamlValue::List(items) => {
                proof {
                    assert(self@->List_0 =~= views_of_nodes(items@));
                }
                Some(items)
            },
            _ => None,
        }
    }

    /// The entries of a mapping node, in document order.
    pub fn as_entries(&self) -> (r: Option<&Vec<(YamlValue, YamlValue)>>)
        ensures
            (match r {
                Some(entries) => self@ == YamlView::Dict(views_of_entries(entries@)),
                None => !(self@ is Dict),
            }),
    {
        match self {
            YamlValue::Dict(entries) => {
                proof {
                    assert(self@->Dict_0 =~= views_of_entries(entries@));
                }
                Some(entries)
            },
            _ => None,
        }
    }

    /// Whether this node is the YAML null.
    pub fn is_null(&self) -> (r: bool)
        ensures
            r == (self@ is Null),
    {
        match self {
            YamlValue::Null => true,
            _ => false,
        }
    }

    /// The node stored under the text key `key`, if this node is a mapping
    /// that has one.
    pub fn get<'a>(&'a self, key: &str) -> (r: Option<&'a YamlValue>)
        ensures
            (match r {
                Some(node) => node_get(self@, key@) == Some(node@),
                None => node_get(self@, key@) is None,
            }),
    {
        let key_string: String = key.to_owned();
        match self.as_entries() {
            Some(entries) => {
                let ghost entry_views = views_of_entries(entries@);
                let mut i: usize = 0;
                while i < entries.len()
                    invariant
                        0 <= i <= entries.len(),
                        key_string@ == key@,
                        entry_views == views_of_entries(entries@),
                        entry_views.len() == entries@.len(),
                        self@ == YamlView::Dict(entry_views),
                        forall|j: int|
                            0 <= j < i ==> entry_views[j].0 != YamlView::Text(key@),
                    decreases entries.len() - i,
                {
                    match &entries[i].0 {
                        YamlValue::Text(s) => {
                            if key_string.eq(s) {
                                proof {
                                    lemma_dict_lookup_found(entry_views, key@, i as int);
                                }
                                return Some(&entries[i].1);
                            }
                        },
                        _ => {},
                    }
                    i = i + 1;
                }
                proof {
                    lemma_dict_lookup_missing(entry_views, key@);
                }
                None
            },
            None => None,
        }
    }
}

/// What the YAML scanner returns on a given text: either the documents it
/// holds, in order, or the scanner's diagnostic message. Scanning is a
/// function of the text alone, so the result carries a name rather than a
/// page of grammar.
pub uninterp spec fn yaml_docs_of(text: Seq<char>) -> Result<Seq<YamlView>, Seq<char>>;

/// Relies on `yaml_rust::YamlLoader::load_from_str`: it scans a YAML text
/// into a vector of documents, deterministically, or reports a scan error;
/// the error's message is taken through its `Display` form.
#[verifier::external_body]
pub(crate) fn load_yaml_docs(text: &str) -> (r: Result<Vec<YamlValue>, String>)
    ensures
        (match r {
            Ok(docs) => yaml_docs_of(text@) matches Ok(views) && views_of_nodes(docs@)
                == views,
            Err(msg) => yaml_docs_of(text@) matches Err(diag) && msg@ == diag,
        }),
{
    match yaml_rust::YamlLoader::load_from_str(text) {
        Ok(docs) => Ok(docs.iter().map(yaml_node_model).collect()),
        Err(e) => Err(e.to_string()),
    }
}

/// The node type of `yaml_rust`, declared so that the conversion below may
/// take it; the library never looks inside such a value.
#[verifier::external_type_specification]
#[verifier::external_body]
pub struct ExYaml(yaml_rust::Yaml);

/// Relies on the variants of `yaml_rust::Yaml`: each is carried over
/// one-for-one into the library's node tree; the non-string scalars
/// (reals, integers, booleans, aliases, bad values) all collapse to
/// `Other`.
#[verifier::external_body]
fn yaml_node_model(node: &yaml_rust::Yaml) -> YamlValue {
    match node {
        yaml_rust::Yaml::String(s) => YamlValue::Text(s.clone()),
        yaml_rust::Yaml::Array(items) => YamlValue::List(items.iter().map(yaml_node_model).collect()),
        yaml_rust::Yaml::Hash(entries) => YamlValue::Dict(
            entries.iter().map(|(k, v)| (yaml_node_model(k), yaml_node_model(v))).collect(),
        ),
        yaml_rust::Yaml::Null => YamlValue::Null,
        _ => YamlValue::Other,
    }
}

} // verus!
