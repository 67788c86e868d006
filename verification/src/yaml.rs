//! YAML documents as plain values, and the rewriting githops applies to a
//! configuration document before reading it.
use vstd::prelude::*;
use crate::text::{str_eq, split_by, split_chars, trim, trim_string};
use serde_yaml::value::{Tag, TaggedValue};
use serde_yaml::Value;

verus! {

/// A YAML value. Mapping keys are unique and kept in document order.
#[derive(Debug)]
pub enum YamlNode {
    Null,
    Bool(bool),
    /// A number, by its text.
    Number(String),
    Str(String),
    List(Vec<YamlNode>),
    Mapping(Vec<(YamlNode, YamlNode)>),
    /// A value with a `!tag`.
    Tagged(String, Box<YamlNode>),
}

/// The mathematical value of a [`YamlNode`].
#[verifier::ext_equal]
pub enum YamlView {
    Null,
    Bool(bool),
    Number(Seq<char>),
    Str(Seq<char>),
    List(Seq<YamlView>),
    Mapping(Seq<(YamlView, YamlView)>),
    Tagged(Seq<char>, Box<YamlView>),
}

/// The value of a YAML node.
pub open spec fn yaml_view(n: YamlNode) -> YamlView
    decreases n,
{
    match n {
        YamlNode::Null => YamlView::Null,
        YamlNode::Bool(b) => YamlView::Bool(b),
        YamlNode::Number(s) => YamlView::Number(s@),
        YamlNode::Str(s) => YamlView::Str(s@),
        YamlNode::List(v) => YamlView::List(
            Seq::new(v@.len(), |i: int| if 0 <= i < v@.len() { yaml_view(v@[i]) } else { YamlView::Null }),
        ),
        YamlNode::Mapping(v) => YamlView::Mapping(
            Seq::new(
                v@.len(),
                |i: int|
                    if 0 <= i < v@.len() {
                        (yaml_view(v@[i].0), yaml_view(v@[i].1))
                    } else {
                        (YamlView::Null, YamlView::Null)
                    },
            ),
        ),
        YamlNode::Tagged(t, b) => YamlView::Tagged(t@, Box::new(yaml_view(*b))),
    }
}

impl View for YamlNode {
    type V = YamlView;

    open spec fn view(&self) -> YamlView {
        yaml_view(*self)
    }
}

/// The values of a list of nodes.
pub open spec fn node_views(v: Seq<YamlNode>) -> Seq<YamlView> {
    Seq::new(v.len(), |i: int| v[i]@)
}

/// The values of a list of key/value pairs.
pub open spec fn pair_views(v: Seq<(YamlNode, YamlNode)>) -> Seq<(YamlView, YamlView)> {
    Seq::new(v.len(), |i: int| (v[i].0@, v[i].1@))
}

proof fn lemma_list_view(v: Vec<YamlNode>)
    ensures
        YamlNode::List(v)@ == YamlView::List(node_views(v@)),
{
    let lv = yaml_view(YamlNode::List(v))->List_0;
    assert forall|i: int| 0 <= i < v@.len() implies #[trigger] lv[i] == node_views(v@)[i] by {}
    assert(lv =~= node_views(v@));
    assert(Seq::new(v@.len(), |i: int| if 0 <= i < v@.len() { yaml_view(v@[i]) } else { YamlView::Null })
        =~= node_views(v@));
}

proof fn lemma_mapping_view(v: Vec<(YamlNode, YamlNode)>)
    ensures
        YamlNode::Mapping(v)@ == YamlView::Mapping(pair_views(v@)),
{
    let mv = yaml_view(YamlNode::Mapping(v))->Mapping_0;
    assert forall|i: int| 0 <= i < v@.len() implies #[trigger] mv[i] == pair_views(v@)[i] by {}
    assert(mv =~= pair_views(v@));
    assert(Seq::new(
        v@.len(),
        |i: int|
            if 0 <= i < v@.len() {
                (yaml_view(v@[i].0), yaml_view(v@[i].1))
            } else {
                (YamlView::Null, YamlView::Null)
            },
    ) =~= pair_views(v@));
}

/// The position of the first pair whose key is the string `key`, or -1.
pub open spec fn key_position(es: Seq<(YamlView, YamlView)>, key: Seq<char>) -> int
    decreases es.len(),
{
    if es.len() == 0 {
        -1
    } else {
        let p = key_position(es.drop_last(), key);
        if p >= 0 {
            p
        } else if es.last().0 == YamlView::Str(key) {
            es.len() - 1
        } else {
            -1
        }
    }
}

proof fn lemma_key_position(es: Seq<(YamlView, YamlView)>, key: Seq<char>)
    ensures
        -1 <= key_position(es, key) < es.len(),
        key_position(es, key) >= 0 ==> es[key_position(es, key)].0 == YamlView::Str(key),
        forall|j: int|
            0 <= j < es.len() && (key_position(es, key) < 0 || j < key_position(es, key)) ==> es[j].0
                != YamlView::Str(key),
    decreases es.len(),
{
    if es.len() > 0 {
        lemma_key_position(es.drop_last(), key);
        let p = key_position(es, key);
        assert forall|j: int| 0 <= j < es.len() && (p < 0 || j < p) implies #[trigger] es[j].0 != YamlView::Str(key) by {
            if j < es.len() - 1 {
                assert(es[j] == es.drop_last()[j]);
            }
        }
    }
}

/// The value under the string key `key` of a mapping's pairs.
pub open spec fn lookup_key(es: Seq<(YamlView, YamlView)>, key: Seq<char>) -> Option<YamlView> {
    let p = key_position(es, key);
    if p >= 0 {
        Some(es[p].1)
    } else {
        None
    }
}


/// Finds the pair whose key is the string `key`.
pub fn find_key(es: &Vec<(YamlNode, YamlNode)>, key: &str) -> (r: Option<usize>)
    ensures
        match r {
            Some(k) => key_position(pair_views(es@), key@) == k,
            None => key_position(pair_views(es@), key@) == -1,
        },
{
    let ghost pv = pair_views(es@);
    proof {
        lemma_key_position(pv, key@);
    }
    let mut i: usize = 0;
    while i < es.len()
        invariant
            pv == pair_views(es@),
            i <= es.len(),
            -1 <= key_position(pv, key@) < pv.len(),
            key_position(pv, key@) >= 0 ==> pv[key_position(pv, key@)].0 == YamlView::Str(key@),
            forall|j: int| 0 <= j < i ==> pv[j].0 != YamlView::Str(key@),
        decreases es.len() - i,
    {
        let hit = match &es[i].0 {
            YamlNode::Str(s) => str_eq(s.as_str(), key),
            _ => false,
        };
        assert(pv[i as int].0 == es@[i as int].0@);
        if hit {
            proof {
                lemma_key_position(pv, key@);
                let p = key_position(pv, key@);
                if p >= 0 && p < i {
                    assert(pv[p].0 != YamlView::Str(key@));
                }
            }
            return Some(i);
        }
        i = i + 1;
    }
    None
}

// ---------------------------------------------------------------------------
// Flattening aliased command lists
// ---------------------------------------------------------------------------

/// A command list with every nested list spliced in place: `- *alias`
/// entries that point to a list contribute the list's items.
pub open spec fn flatten_items(items: Seq<YamlView>) -> Seq<YamlView>
    decreases items.len(),
{
    if items.len() == 0 {
        Seq::empty()
    } else {
        flatten_items(items.drop_last()) + match items.last() {
            YamlView::List(inner) => inner,
            other => seq![other],
        }
    }
}

/// The value under tags: what `as_mapping`, `as_str` and their kin look at.
pub open spec fn untag(v: YamlView) -> YamlView
    decreases v,
{
    match v {
        YamlView::Tagged(_, b) => untag(*b),
        _ => v,
    }
}

/// A command list value with its items flattened (under any tags); a value
/// that is not a list is left as it is.
pub open spec fn flatten_list_value(v: YamlView) -> YamlView
    decreases v,
{
    match v {
        YamlView::Tagged(t, b) => YamlView::Tagged(t, Box::new(flatten_list_value(*b))),
        YamlView::List(items) => YamlView::List(flatten_items(items)),
        _ => v,
    }
}

/// A hook mapping with its `commands` list flattened.
pub open spec fn flatten_hook(h: YamlView) -> YamlView
    decreases h,
{
    match h {
        YamlView::Tagged(t, b) => YamlView::Tagged(t, Box::new(flatten_hook(*b))),
        YamlView::Mapping(es) => {
            let k = key_position(es, "commands"@);
            if k >= 0 {
                YamlView::Mapping(es.update(k, (es[k].0, flatten_list_value(es[k].1))))
            } else {
                h
            }
        },
        _ => h,
    }
}

/// The `hooks` mapping with every hook flattened.
pub open spec fn flatten_hooks_value(v: YamlView) -> YamlView
    decreases v,
{
    match v {
        YamlView::Tagged(t, b) => YamlView::Tagged(t, Box::new(flatten_hooks_value(*b))),
        YamlView::Mapping(hooks) => YamlView::Mapping(
            Seq::new(hooks.len(), |i: int| (hooks[i].0, flatten_hook(hooks[i].1))),
        ),
        _ => v,
    }
}

/// A configuration document with the command list of every hook under
/// `hooks` flattened; anything of another shape is left as it is.
pub open spec fn flatten_config(root: YamlView) -> YamlView
    decreases root,
{
    match root {
        YamlView::Tagged(t, b) => YamlView::Tagged(t, Box::new(flatten_config(*b))),
        YamlView::Mapping(es) => {
            let k = key_position(es, "hooks"@);
            if k >= 0 {
                YamlView::Mapping(es.update(k, (es[k].0, flatten_hooks_value(es[k].1))))
            } else {
                root
            }
        },
        _ => root,
    }
}

fn flatten_list(items: Vec<YamlNode>) -> (r: Vec<YamlNode>)
    ensures
        node_views(r@) == flatten_items(node_views(items@)),
{
    let ghost iv = node_views(items@);
    let mut rest = items;
    let mut out: Vec<YamlNode> = Vec::new();
    let ghost mut done: int = 0;
    while rest.len() > 0
        invariant
            0 <= done <= iv.len(),
            node_views(rest@) == iv.skip(done),
            node_views(out@) == flatten_items(iv.take(done)),
        decreases rest.len(),
    {
        let ghost old_rest = rest@;
        assert(node_views(old_rest)[0] == old_rest[0]@);
        assert(node_views(rest@).len() == rest@.len());
        assert(iv.skip(done)[0] == iv[done]);
        let item = rest.remove(0);
        assert(item@ == iv[done]);
        assert forall|i: int| 0 <= i < rest@.len() implies #[trigger] node_views(rest@)[i] == node_views(old_rest)[i + 1] by {
            assert(rest@[i] == old_rest[i + 1]);
        }
        assert(node_views(rest@) =~= iv.skip(done + 1));
        let ghost before = node_views(out@);
        match item {
            YamlNode::List(inner) => {
                proof {
                    lemma_list_view(inner);
                }
                let ghost iw = node_views(inner@);
                let mut inner = inner;
                let mut j: usize = 0;
                let n = inner.len();
                while inner.len() > 0
                    invariant
                        j + inner.len() == n,
                        iw.len() == n,
                        node_views(inner@) == iw.skip(j as int),
                        node_views(out@) == before + iw.take(j as int),
                    decreases inner.len(),
                {
                    let ghost old_inner = inner@;
                    assert(node_views(old_inner)[0] == old_inner[0]@);
                    assert(node_views(inner@).len() == inner@.len());
                    assert(iw.skip(j as int)[0] == iw[j as int]);
                    let x = inner.remove(0);
                    assert(x@ == iw[j as int]);
                    assert forall|i: int| 0 <= i < inner@.len() implies #[trigger] node_views(inner@)[i] == node_views(old_inner)[i + 1] by {
                        assert(inner@[i] == old_inner[i + 1]);
                    }
                    assert(node_views(inner@) =~= iw.skip(j + 1));
                    let ghost old_out = out@;
                    assert(node_views(old_out).len() == old_out.len());
                    assert(j < iw.len());
                    assert(old_out.len() == before.len() + j);
                    out.push(x);
                    assert forall|i: int| 0 <= i < out@.len() implies #[trigger] node_views(out@)[i] == (before + iw.take(j + 1))[i] by {
                        if i < old_out.len() {
                            assert(out@[i] == old_out[i]);
                            assert(node_views(old_out)[i] == (before + iw.take(j as int))[i]);
                        }
                    }
                    assert(node_views(out@) =~= before + iw.take(j + 1));
                    j = j + 1;
                }
                assert(iw.take(j as int) =~= iw);
            },
            other => {
                out.push(other);
                assert(node_views(out@) =~= before + seq![other@]);
            },
        }
        assert(iv.take(done + 1).drop_last() =~= iv.take(done));
        proof {
            done = done + 1;
        }
        assert(node_views(out@) == flatten_items(iv.take(done)));
    }
    assert(iv.skip(done).len() == 0);
    assert(iv.take(done) =~= iv);
    out
}

fn flatten_hook_pairs(hooks: Vec<(YamlNode, YamlNode)>) -> (r: Vec<(YamlNode, YamlNode)>)
    ensures
        pair_views(r@) == Seq::new(
            hooks@.len(),
            |i: int| (pair_views(hooks@)[i].0, flatten_hook(pair_views(hooks@)[i].1)),
        ),
{
    let ghost hv = pair_views(hooks@);
    let ghost target = Seq::new(hooks@.len(), |i: int| (hv[i].0, flatten_hook(hv[i].1)));
    let mut rest = hooks;
    let mut out: Vec<(YamlNode, YamlNode)> = Vec::new();
    while rest.len() > 0
        invariant
            out@.len() + rest@.len() == hv.len(),
            target.len() == hv.len(),
            pair_views(rest@) == hv.skip(out@.len() as int),
            pair_views(out@) == target.take(out@.len() as int),
            forall|i: int| 0 <= i < hv.len() ==> #[trigger] target[i] == (hv[i].0, flatten_hook(hv[i].1)),
        decreases rest.len(),
    {
        let ghost d = out@.len() as int;
        let ghost old_rest = rest@;
        assert(pair_views(old_rest)[0] == (old_rest[0].0@, old_rest[0].1@));
        assert(hv.skip(d)[0] == hv[d]);
        let (k, v) = rest.remove(0);
        assert forall|i: int| 0 <= i < rest@.len() implies #[trigger] pair_views(rest@)[i] == pair_views(old_rest)[i + 1] by {
            assert(rest@[i] == old_rest[i + 1]);
        }
        assert(pair_views(rest@) =~= hv.skip(d + 1));
        assert((k@, v@) == hv[d]);
        let fv = flatten_hook_node(v);
        out.push((k, fv));
        assert(pair_views(out@) =~= target.take(d + 1));
    }
    assert(target.take(out@.len() as int) =~= target);
    out
}


fn flatten_list_node(v: YamlNode) -> (r: YamlNode)
    ensures
        r@ == flatten_list_value(v@),
    decreases v,
{
    match v {
        YamlNode::Tagged(t, b) => {
            let inner = flatten_list_node(*b);
            YamlNode::Tagged(t, Box::new(inner))
        },
        YamlNode::List(items) => {
            proof {
                lemma_list_view(items);
            }
            let flat = flatten_list(items);
            proof {
                lemma_list_view(flat);
            }
            YamlNode::List(flat)
        },
        other => other,
    }
}

/// Replaces the value of pair `k` by its flattened command list, keeping its key.
fn flatten_commands_entry(es: Vec<(YamlNode, YamlNode)>, k: usize) -> (r: Vec<(YamlNode, YamlNode)>)
    requires
        k < es@.len(),
    ensures
        pair_views(r@) == pair_views(es@).update(
            k as int,
            (pair_views(es@)[k as int].0, flatten_list_value(pair_views(es@)[k as int].1)),
        ),
{
    let ghost ev = pair_views(es@);
    let mut es = es;
    let (key, val) = es.remove(k);
    let nv = flatten_list_node(val);
    es.insert(k, (key, nv));
    assert(pair_views(es@) =~= ev.update(k as int, (ev[k as int].0, flatten_list_value(ev[k as int].1))));
    es
}

/// Replaces the value of pair `k` by its flattened hooks, keeping its key.
fn flatten_hooks_entry(es: Vec<(YamlNode, YamlNode)>, k: usize) -> (r: Vec<(YamlNode, YamlNode)>)
    requires
        k < es@.len(),
    ensures
        pair_views(r@) == pair_views(es@).update(
            k as int,
            (pair_views(es@)[k as int].0, flatten_hooks_value(pair_views(es@)[k as int].1)),
        ),
{
    let ghost ev = pair_views(es@);
    let mut es = es;
    let (key, val) = es.remove(k);
    let nv = flatten_hooks_node(val);
    es.insert(k, (key, nv));
    assert(pair_views(es@) =~= ev.update(k as int, (ev[k as int].0, flatten_hooks_value(ev[k as int].1))));
    es
}

fn flatten_hook_node(h: YamlNode) -> (r: YamlNode)
    ensures
        r@ == flatten_hook(h@),
    decreases h,
{
    match h {
        YamlNode::Tagged(t, b) => {
            let inner = flatten_hook_node(*b);
            YamlNode::Tagged(t, Box::new(inner))
        },
        YamlNode::Mapping(es) => {
            proof {
                lemma_mapping_view(es);
                lemma_key_position(pair_views(es@), "commands"@);
            }
            match find_key(&es, "commands") {
                None => YamlNode::Mapping(es),
                Some(k) => {
                    let es2 = flatten_commands_entry(es, k);
                    proof {
                        lemma_mapping_view(es2);
                    }
                    YamlNode::Mapping(es2)
                },
            }
        },
        other => other,
    }
}

fn flatten_hooks_node(v: YamlNode) -> (r: YamlNode)
    ensures
        r@ == flatten_hooks_value(v@),
    decreases v,
{
    match v {
        YamlNode::Tagged(t, b) => {
            let inner = flatten_hooks_node(*b);
            YamlNode::Tagged(t, Box::new(inner))
        },
        YamlNode::Mapping(hooks) => {
            proof {
                lemma_mapping_view(hooks);
            }
            let flat = flatten_hook_pairs(hooks);
            proof {
                lemma_mapping_view(flat);
            }
            YamlNode::Mapping(flat)
        },
        other => other,
    }
}

fn flatten_config_node(root: YamlNode) -> (r: YamlNode)
    ensures
        r@ == flatten_config(root@),
    decreases root,
{
    match root {
        YamlNode::Tagged(t, b) => {
            let inner = flatten_config_node(*b);
            YamlNode::Tagged(t, Box::new(inner))
        },
        YamlNode::Mapping(es) => {
            proof {
                lemma_mapping_view(es);
                lemma_key_position(pair_views(es@), "hooks"@);
            }
            match find_key(&es, "hooks") {
                None => YamlNode::Mapping(es),
                Some(k) => {
                    let es2 = flatten_hooks_entry(es, k);
                    proof {
                        lemma_mapping_view(es2);
                    }
                    YamlNode::Mapping(es2)
                },
            }
        },
        other => other,
    }
}

/// Splices aliased command lists into the hooks of a configuration document,
/// so that `commands: [*shared, ...]` reads as one flat list.
pub fn flatten_command_aliases(root: &mut YamlNode)
    ensures
        final(root)@ == flatten_config(old(root)@),
{
    let mut taken = YamlNode::Null;
    std::mem::swap(&mut taken, root);
    *root = flatten_config_node(taken);
}


// ---------------------------------------------------------------------------
// Reading values
// ---------------------------------------------------------------------------

/// The text of a string value under any tags (`Value::as_str`).
pub open spec fn as_text(v: YamlView) -> Option<Seq<char>> {
    match untag(v) {
        YamlView::Str(s) => Some(s),
        _ => None,
    }
}

/// The pairs of a mapping value under any tags (`Value::as_mapping`).
pub open spec fn as_pairs(v: YamlView) -> Option<Seq<(YamlView, YamlView)>> {
    match untag(v) {
        YamlView::Mapping(es) => Some(es),
        _ => None,
    }
}

/// The node under any tags.
pub fn untag_node(n: &YamlNode) -> (r: &YamlNode)
    ensures
        r@ == untag(n@),
    decreases n,
{
    match n {
        YamlNode::Tagged(_, b) => untag_node(b),
        _ => n,
    }
}

/// The text of a string node, under any tags.
pub fn node_text(n: &YamlNode) -> (r: Option<&String>)
    ensures
        match r {
            Some(s) => as_text(n@) == Some(s@),
            None => as_text(n@) is None,
        },
{
    match untag_node(n) {
        YamlNode::Str(s) => Some(s),
        _ => None,
    }
}

/// The pairs of a mapping node, under any tags.
pub fn node_pairs(n: &YamlNode) -> (r: Option<&Vec<(YamlNode, YamlNode)>>)
    ensures
        match r {
            Some(es) => as_pairs(n@) == Some(pair_views(es@)),
            None => as_pairs(n@) is None,
        },
{
    let u = untag_node(n);
    match u {
        YamlNode::Mapping(es) => {
            proof {
                lemma_mapping_view(*es);
            }
            Some(es)
        },
        _ => None,
    }
}

/// The value under the string key `key` (`Mapping::get`).
pub fn lookup_node<'a>(es: &'a Vec<(YamlNode, YamlNode)>, key: &str) -> (r: Option<&'a YamlNode>)
    ensures
        match r {
            Some(v) => lookup_key(pair_views(es@), key@) == Some(v@),
            None => lookup_key(pair_views(es@), key@) is None,
        },
{
    match find_key(es, key) {
        Some(k) => {
            proof {
                lemma_key_position(pair_views(es@), key@);
            }
            Some(&es[k].1)
        },
        None => None,
    }
}

// ---------------------------------------------------------------------------
// Parsing and rendering YAML text
// ---------------------------------------------------------------------------

#[verifier::external_type_specification]
#[verifier::external_body]
pub struct ExYamlValue(serde_yaml::Value);

/// Every tag inside `v` has a non-empty name.
pub open spec fn tags_named(v: YamlView) -> bool
    decreases v,
{
    match v {
        YamlView::Tagged(t, b) => t.len() > 0 && tags_named(*b),
        YamlView::List(items) => forall|i: int| 0 <= i < items.len() ==> #[trigger] tags_named(items[i]),
        YamlView::Mapping(es) => forall|i: int|
            0 <= i < es.len() ==> tags_named(#[trigger] es[i].0) && tags_named(es[i].1),
        _ => true,
    }
}

/// What `serde_yaml::from_str::<serde_yaml::Value>` makes of `text`: the
/// value, or the text of the parse error.
pub uninterp spec fn yaml_value(text: Seq<char>) -> Result<YamlView, Seq<char>>;

/// What `serde_yaml::to_string` gives for the YAML value `v` stands for, or
/// `None` where serialising fails.
pub uninterp spec fn yaml_rendering(v: YamlView) -> Option<Seq<char>>;

/// Converts a parsed YAML value into a node, variant by variant; a number
/// keeps the text `serde_yaml` renders for it and a tag its `!`-prefixed
/// name. Trusted as the conversion step of `parse_yaml_value`, whose body
/// alone calls it.
#[verifier::external_body]
fn yaml_node(v: &Value) -> YamlNode {
    match v {
        Value::Null => YamlNode::Null,
        Value::Bool(b) => YamlNode::Bool(*b),
        Value::Number(n) => YamlNode::Number(n.to_string()),
        Value::String(s) => YamlNode::Str(s.clone()),
        Value::Sequence(items) => YamlNode::List(items.iter().map(yaml_node).collect()),
        Value::Mapping(m) => YamlNode::Mapping(m.iter().map(|(k, c)| (yaml_node(k), yaml_node(c))).collect()),
        Value::Tagged(t) => YamlNode::Tagged(t.tag.to_string(), Box::new(yaml_node(&t.value))),
    }
}

/// Converts a node back into a `serde_yaml` value, variant by variant (a
/// number through `serde_yaml::Number`'s parser, kept as a string where that
/// fails). Trusted as the conversion step of `render_yaml`, whose body alone
/// calls it; `Tag::new` panics on an empty tag name, which `render_yaml`'s
/// `requires` rules out.
#[verifier::external_body]
fn yaml_value_of(n: &YamlNode) -> Value {
    match n {
        YamlNode::Null => Value::Null,
        YamlNode::Bool(b) => Value::Bool(*b),
        YamlNode::Number(s) => s.parse().map(Value::Number).unwrap_or_else(|_| Value::String(s.clone())),
        YamlNode::Str(s) => Value::String(s.clone()),
        YamlNode::List(items) => Value::Sequence(items.iter().map(yaml_value_of).collect()),
        YamlNode::Mapping(es) => Value::Mapping(es.iter().map(|(k, c)| (yaml_value_of(k), yaml_value_of(c))).collect()),
        YamlNode::Tagged(t, b) => Value::Tagged(Box::new(TaggedValue { tag: Tag::new(t.clone()), value: yaml_value_of(b) })),
    }
}

/// `serde_yaml::from_str::<serde_yaml::Value>` on `text`, converted to a
/// node. Trusted: the result is the value `yaml_value` names for `text`, or
/// the parse error's text; every tag of a parsed value has a name (a tag
/// renders as `!` and its name).
#[verifier::external_body]
pub(crate) fn parse_yaml_value(text: &str) -> (r: Result<YamlNode, String>)
    ensures
        match yaml_value(text@) {
            Ok(v) => r matches Ok(n) && n@ == v && tags_named(v),
            Err(e) => r matches Err(m) && m@ == e,
        },
{
    match serde_yaml::from_str::<Value>(text) {
        Ok(v) => Ok(yaml_node(&v)),
        Err(e) => Err(e.to_string()),
    }
}

/// `serde_yaml::to_string` of the value `n` stands for. Trusted: the result
/// is what `yaml_rendering` names for `n`'s value, `None` where serialising
/// fails.
#[verifier::external_body]
pub(crate) fn render_yaml(n: &YamlNode) -> (r: Option<String>)
    requires
        tags_named(n@),
    ensures
        match yaml_rendering(n@) {
            Some(t) => r matches Some(s) && s@ == t,
            None => r is None,
        },
{
    serde_yaml::to_string(&yaml_value_of(n)).ok()
}

/// Parses the text of a configuration file as YAML and flattens its aliased
/// command lists; a text that is not YAML gives the parser's message.
pub fn config_document(text: &str) -> (r: Result<YamlNode, String>)
    ensures
        match yaml_value(text@) {
            Ok(v) => r matches Ok(n) && n@ == flatten_config(v),
            Err(e) => r matches Err(m) && m@ == e,
        },
{
    let mut node = parse_yaml_value(text)?;
    flatten_command_aliases(&mut node);
    Ok(node)
}

// ---------------------------------------------------------------------------
// Navigating a YAML document by a dot-separated key path
// ---------------------------------------------------------------------------

/// The value under the string key `k` of a mapping under any tags
/// (`Value::get` with a `&str`).
pub open spec fn yaml_child(v: YamlView, k: Seq<char>) -> Option<YamlView> {
    match as_pairs(v) {
        Some(es) => lookup_key(es, k),
        None => None,
    }
}

/// The value reached from `v` by following `keys`.
pub open spec fn nav_yaml(v: YamlView, keys: Seq<Seq<char>>) -> Option<YamlView>
    decreases keys.len(),
{
    if keys.len() == 0 {
        Some(v)
    } else {
        match yaml_child(v, keys[0]) {
            Some(c) => nav_yaml(c, keys.drop_first()),
            None => None,
        }
    }
}

/// A reached value as text: a string as itself, a number as its text, any
/// other value as `serde_yaml` renders it, trimmed; `None` where rendering
/// fails.
pub open spec fn yaml_scalar_text(v: YamlView) -> Option<Seq<char>> {
    match v {
        YamlView::Str(s) => Some(s),
        YamlView::Number(s) => Some(s),
        _ => match yaml_rendering(v) {
            Some(t) => Some(trim(t)),
            None => None,
        },
    }
}

/// The text at the dot-separated `path` of `v`, or `None` where a key is
/// missing or the value cannot be rendered.
pub open spec fn yaml_path_text(v: YamlView, path: Seq<char>) -> Option<Seq<char>> {
    match nav_yaml(v, split_by(path, '.')) {
        Some(n) => yaml_scalar_text(n),
        None => None,
    }
}

proof fn lemma_lookup_tags(es: Seq<(YamlView, YamlView)>, k: Seq<char>)
    requires
        forall|i: int| 0 <= i < es.len() ==> tags_named(#[trigger] es[i].0) && tags_named(es[i].1),
    ensures
        lookup_key(es, k) matches Some(c) ==> tags_named(c),
{
    lemma_key_position(es, k);
    let p = key_position(es, k);
    if p >= 0 {
        assert(tags_named(es[p].0));
    }
}

proof fn lemma_untag_tags(v: YamlView)
    requires
        tags_named(v),
    ensures
        tags_named(untag(v)),
    decreases v,
{
    if let YamlView::Tagged(_, b) = v {
        lemma_untag_tags(*b);
    }
}

/// The text at the dot-separated `path` of `root`: strings as themselves,
/// numbers as their text, other values as `serde_yaml` renders them,
/// trimmed.
pub fn yaml_text_at(root: &YamlNode, path: &str) -> (r: Option<String>)
    requires
        tags_named(root@),
    ensures
        match yaml_path_text(root@, path@) {
            Some(t) => r matches Some(s) && s@ == t,
            None => r is None,
        },
{
    let keys = split_chars(path, '.');
    let ghost kv = split_by(path@, '.');
    assert(keys@.map_values(|p: String| p@) == kv);
    let mut cur = root;
    let mut i: usize = 0;
    assert(kv.skip(0) == kv);
    while i < keys.len()
        invariant
            keys@.map_values(|p: String| p@) == kv,
            kv == split_by(path@, '.'),
            i <= keys.len(),
            tags_named(cur@),
            nav_yaml(root@, kv) == nav_yaml(cur@, kv.skip(i as int)),
        decreases keys.len() - i,
    {
        assert(kv.skip(i as int)[0] == keys@[i as int]@);
        assert(kv.skip(i as int).drop_first() == kv.skip(i + 1));
        proof {
            lemma_untag_tags(cur@);
        }
        let es = match node_pairs(cur) {
            Some(es) => es,
            None => {
                return None;
            },
        };
        match lookup_node(es, keys[i].as_str()) {
            Some(c) => {
                proof {
                    lemma_lookup_tags(pair_views(es@), keys@[i as int]@);
                }
                cur = c;
            },
            None => {
                return None;
            },
        }
        i = i + 1;
    }
    assert(kv.skip(i as int).len() == 0);
    match cur {
        YamlNode::Str(s) => Some(s.clone()),
        YamlNode::Number(s) => Some(s.clone()),
        _ => match render_yaml(cur) {
            Some(t) => Some(trim_string(t.as_str())),
            None => None,
        },
    }
}

/// A mapping node's value is the mapping of its pairs' values.
pub proof fn lemma_mapping_view_pub(v: Vec<(YamlNode, YamlNode)>)
    ensures
        YamlNode::Mapping(v)@ == YamlView::Mapping(pair_views(v@)),
{
    lemma_mapping_view(v);
}

} // verus!
