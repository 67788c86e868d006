//! Parsed external documents (JSON, TOML or YAML files named by `include:`)
//! and navigation in them by dot-separated key paths.
use vstd::prelude::*;

use crate::text::{split_by, split_chars, str_eq, string_of, push_str};

verus! {

/// A node of a parsed document.
///
/// `text` is the string itself for a string value, and otherwise the value as
/// its source format renders it. `children` lists the entries of a mapping
/// under string keys; other values have none.
#[derive(Debug)]
pub struct DocNode {
    pub text: String,
    pub is_str: bool,
    pub children: Vec<(String, DocNode)>,
}

/// The mathematical value of a [`DocNode`].
#[verifier::ext_equal]
pub struct DocView {
    pub text: Seq<char>,
    pub is_str: bool,
    pub children: Seq<(Seq<char>, DocView)>,
}

/// The value of a document node.
pub open spec fn doc_view(n: DocNode) -> DocView
    decreases n,
{
    DocView {
        text: n.text@,
        is_str: n.is_str,
        children: Seq::new(
            n.children@.len(),
            |i: int|
                if 0 <= i < n.children@.len() {
                    (n.children@[i].0@, doc_view(n.children@[i].1))
                } else {
                    (Seq::empty(), DocView { text: Seq::empty(), is_str: false, children: Seq::empty() })
                },
        ),
    }
}

impl View for DocNode {
    type V = DocView;

    open spec fn view(&self) -> DocView {
        doc_view(*self)
    }
}

/// The values of a node's children, key by key.
pub open spec fn children_view(cs: Seq<(String, DocNode)>) -> Seq<(Seq<char>, DocView)> {
    Seq::new(cs.len(), |i: int| (cs[i].0@, cs[i].1@))
}

proof fn lemma_children_view(n: DocNode)
    ensures
        n@.children == children_view(n.children@),
{
    assert(n@.children =~= children_view(n.children@));
}

/// The first child of `children` stored under `k`.
pub open spec fn child_named(children: Seq<(Seq<char>, DocView)>, k: Seq<char>) -> Option<DocView>
    decreases children.len(),
{
    if children.len() == 0 {
        None
    } else if children[0].0 == k {
        Some(children[0].1)
    } else {
        child_named(children.drop_first(), k)
    }
}

/// The node reached from `node` by following `keys`.
pub open spec fn nav(node: DocView, keys: Seq<Seq<char>>) -> Option<DocView>
    decreases keys.len(),
{
    if keys.len() == 0 {
        Some(node)
    } else {
        match child_named(node.children, keys[0]) {
            Some(c) => nav(c, keys.drop_first()),
            None => None,
        }
    }
}

/// The first key of `keys` that is missing along the way from `node`.
pub open spec fn missing_key(node: DocView, keys: Seq<Seq<char>>) -> Seq<char>
    decreases keys.len(),
{
    if keys.len() == 0 {
        Seq::empty()
    } else {
        match child_named(node.children, keys[0]) {
            Some(c) => missing_key(c, keys.drop_first()),
            None => keys[0],
        }
    }
}

// ---------------------------------------------------------------------------
// Parsing JSON and TOML documents
// ---------------------------------------------------------------------------

#[verifier::external_type_specification]
#[verifier::external_body]
pub struct ExJsonValue(serde_json::Value);

#[verifier::external_type_specification]
#[verifier::external_body]
pub struct ExTomlValue(toml::Value);

/// The document tree that `serde_json::from_str::<serde_json::Value>` makes
/// of `text` (strings as themselves, other values as `serde_json` renders
/// them, objects with their entries as children), or `None` where parsing
/// fails.
pub uninterp spec fn json_document(text: Seq<char>) -> Option<DocView>;

/// The document tree that `toml::from_str::<toml::Value>` makes of `text`
/// (strings as themselves, other values as `toml` renders them, tables with
/// their entries as children), or `None` where parsing fails.
pub uninterp spec fn toml_document(text: Seq<char>) -> Option<DocView>;

/// Converts a parsed JSON value into a document node: a string is its own
/// text, any other value the text `serde_json` renders for it, and an
/// object's entries become the children. Trusted as the conversion step of
/// `parse_json_document`, whose body alone calls it.
#[verifier::external_body]
fn json_node(v: &serde_json::Value) -> DocNode {
    match v {
        serde_json::Value::String(s) => DocNode { text: s.clone(), is_str: true, children: Vec::new() },
        serde_json::Value::Object(m) => DocNode {
            text: v.to_string(),
            is_str: false,
            children: m.iter().map(|(k, c)| (k.clone(), json_node(c))).collect(),
        },
        _ => DocNode { text: v.to_string(), is_str: false, children: Vec::new() },
    }
}

/// Converts a parsed TOML value into a document node: a string is its own
/// text, any other value the text `toml` renders for it, and a table's
/// entries become the children. Trusted as the conversion step of
/// `parse_toml_document`, whose body alone calls it.
#[verifier::external_body]
fn toml_node(v: &toml::Value) -> DocNode {
    match v {
        toml::Value::String(s) => DocNode { text: s.clone(), is_str: true, children: Vec::new() },
        toml::Value::Table(t) => DocNode {
            text: v.to_string(),
            is_str: false,
            children: t.iter().map(|(k, c)| (k.clone(), toml_node(c))).collect(),
        },
        _ => DocNode { text: v.to_string(), is_str: false, children: Vec::new() },
    }
}

/// `serde_json::from_str::<serde_json::Value>` on `text`, converted to a
/// document tree. Trusted: the result is the tree `json_document` names for
/// `text`, and `None` exactly where that name gives `None` (the parse fails).
#[verifier::external_body]
pub(crate) fn parse_json_document(text: &str) -> (r: Option<DocNode>)
    ensures
        match json_document(text@) {
            Some(d) => r matches Some(x) && x@ == d,
            None => r is None,
        },
{
    serde_json::from_str::<serde_json::Value>(text).ok().map(|v| json_node(&v))
}

/// `toml::from_str::<toml::Value>` on `text`, converted to a document tree.
/// Trusted: the result is the tree `toml_document` names for `text`, and
/// `None` exactly where that name gives `None` (the parse fails).
#[verifier::external_body]
pub(crate) fn parse_toml_document(text: &str) -> (r: Option<DocNode>)
    ensures
        match toml_document(text@) {
            Some(d) => r matches Some(x) && x@ == d,
            None => r is None,
        },
{
    toml::from_str::<toml::Value>(text).ok().map(|v| toml_node(&v))
}

/// A key of a path is missing from the document.
#[derive(Debug)]
pub struct NavError {
    pub key: String,
}

impl NavError {
    /// The message reported to the user.
    pub fn message(&self) -> (s: String)
        ensures
            s@ == "Key '"@ + self.key@ + "' not found"@,
    {
        let mut s = string_of("Key '");
        push_str(&mut s, self.key.as_str());
        push_str(&mut s, "' not found");
        s
    }
}

fn child_position(children: &Vec<(String, DocNode)>, k: &str) -> (r: Option<usize>)
    ensures
        match r {
            Some(i) => i < children.len() && child_named(children_view(children@), k@) == Some(
                children@[i as int].1@,
            ),
            None => child_named(children_view(children@), k@) is None,
        },
{
    let ghost cv = children_view(children@);
    let mut i: usize = 0;
    assert(cv.skip(0) == cv);
    while i < children.len()
        invariant
            cv == children_view(children@),
            i <= children.len(),
            child_named(cv, k@) == child_named(cv.skip(i as int), k@),
        decreases children.len() - i,
    {
        assert(cv.skip(i as int).drop_first() == cv.skip(i + 1));
        assert(cv.skip(i as int)[0] == (children@[i as int].0@, children@[i as int].1@));
        if str_eq(children[i].0.as_str(), k) {
            return Some(i);
        }
        i = i + 1;
    }
    None
}

/// Follows the dot-separated `path` from `doc` and returns the text of the
/// node reached (a string value itself, any other value as its format renders
/// it), or the first key that is missing.
pub fn navigate(doc: &DocNode, path: &str) -> (r: Result<String, NavError>)
    ensures
        match nav(doc@, split_by(path@, '.')) {
            Some(n) => r matches Ok(s) && s@ == n.text,
            None => r matches Err(e) && e.key@ == missing_key(doc@, split_by(path@, '.')),
        },
{
    let keys = split_chars(path, '.');
    let ghost kv = split_by(path@, '.');
    assert(keys@.map_values(|p: String| p@) == kv);
    let mut cur = doc;
    let mut i: usize = 0;
    assert(kv.skip(0) == kv);
    while i < keys.len()
        invariant
            keys@.map_values(|p: String| p@) == kv,
            kv == split_by(path@, '.'),
            i <= keys.len(),
            nav(doc@, kv) == nav(cur@, kv.skip(i as int)),
            missing_key(doc@, kv) == missing_key(cur@, kv.skip(i as int)),
        decreases keys.len() - i,
    {
        assert(kv.skip(i as int)[0] == keys@[i as int]@);
        assert(kv.skip(i as int).drop_first() == kv.skip(i + 1));
        proof {
            lemma_children_view(*cur);
        }
        match child_position(&cur.children, keys[i].as_str()) {
            Some(j) => {
                cur = &cur.children[j].1;
            },
            None => {
                assert(kv.skip(i as int).len() > 0);
                assert(nav(cur@, kv.skip(i as int)) is None);
                assert(missing_key(cur@, kv.skip(i as int)) == keys@[i as int]@);
                let e = NavError { key: keys[i].clone() };
                assert(e.key@ == missing_key(doc@, split_by(path@, '.')));
                assert(nav(doc@, split_by(path@, '.')) is None);
                return Err(e);
            },
        }
        i = i + 1;
    }
    assert(kv.skip(i as int).len() == 0);
    Ok(cur.text.clone())
}

} // verus!
