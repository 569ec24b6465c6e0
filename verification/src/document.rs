//! Structured documents: what a JSON or TOML text holds, as far as manifests
//! are read.
use vstd::prelude::*;
use crate::text::chars::{chars_of, same};
use crate::text::search::{parts_view, split, split_on};

verus! {

/// A value in a document. Numbers, booleans, dates and nulls are not read, so
/// they are all alike.
#[derive(Debug)]
pub enum Node {
    Text(String),
    List(Vec<Node>),
    Table(Vec<(String, Node)>),
    Other,
}

/// A value in a document as a mathematical value.
pub enum NodeView {
    Text(Seq<char>),
    List(Seq<NodeView>),
    Table(Seq<(Seq<char>, NodeView)>),
    Other,
}

/// The mathematical value of a node.
pub open spec fn tree(n: Node) -> NodeView
    decreases n,
{
    match n {
        Node::Text(s) => NodeView::Text(s@),
        Node::List(v) => NodeView::List(
            Seq::new(
                v@.len(),
                |i: int|
                    if 0 <= i < v@.len() {
                        tree(v@[i])
                    } else {
                        NodeView::Other
                    },
            ),
        ),
        Node::Table(v) => NodeView::Table(
            Seq::new(
                v@.len(),
                |i: int|
                    if 0 <= i < v@.len() {
                        (v@[i].0@, tree(v@[i].1))
                    } else {
                        (seq![], NodeView::Other)
                    },
            ),
        ),
        Node::Other => NodeView::Other,
    }
}

impl View for Node {
    type V = NodeView;

    open spec fn view(&self) -> NodeView {
        tree(*self)
    }
}

/// The view of a document that may be absent.
pub open spec fn node_view(n: Option<Node>) -> Option<NodeView> {
    match n {
        Some(v) => Some(v@),
        None => None,
    }
}

/// The value of the first entry with a key.
pub open spec fn lookup(entries: Seq<(Seq<char>, NodeView)>, key: Seq<char>) -> Option<NodeView>
    decreases entries.len(),
{
    if entries.len() == 0 {
        None
    } else if entries[0].0 == key {
        Some(entries[0].1)
    } else {
        lookup(entries.skip(1), key)
    }
}

impl NodeView {
    /// The value under a key of a table.
    pub open spec fn get(self, key: Seq<char>) -> Option<NodeView> {
        match self {
            NodeView::Table(entries) => lookup(entries, key),
            _ => None,
        }
    }

    /// The value under a key, under a key, and so on.
    pub open spec fn follow(self, keys: Seq<Seq<char>>) -> Option<NodeView>
        decreases keys.len(),
    {
        if keys.len() == 0 {
            Some(self)
        } else {
            match self.get(keys[0]) {
                Some(next) => next.follow(keys.skip(1)),
                None => None,
            }
        }
    }

    /// The value under a key whose parts stand between dots.
    pub open spec fn resolve(self, key: Seq<char>) -> Option<NodeView> {
        self.follow(split(key, '.'))
    }
}

/// The entries of a table; none where the value is absent or no table.
pub open spec fn entries_of(n: Option<NodeView>) -> Seq<(Seq<char>, NodeView)> {
    match n {
        Some(NodeView::Table(entries)) => entries,
        _ => seq![],
    }
}

/// The items of a list; none where the value is absent or no list.
pub open spec fn items_of(n: Option<NodeView>) -> Seq<NodeView> {
    match n {
        Some(NodeView::List(items)) => items,
        _ => seq![],
    }
}

/// What a table has under a key is the value of its first entry with that key; it has
/// nothing there exactly where no entry has the key.
pub proof fn law_lookup(entries: Seq<(Seq<char>, NodeView)>, key: Seq<char>)
    ensures
        match NodeView::Table(entries).get(key) {
            Some(value) => exists|i: int|
                0 <= i < entries.len() && #[trigger] entries[i] == (key, value) && forall|j: int|
                    0 <= j < i ==> (#[trigger] entries[j]).0 != key,
            None => forall|j: int| 0 <= j < entries.len() ==> (#[trigger] entries[j]).0 != key,
        },
    decreases entries.len(),
{
    if entries.len() > 0 {
        if entries[0].0 == key {
            assert(entries[0] == (key, entries[0].1));
        } else {
            let rest = entries.skip(1);
            law_lookup(rest, key);
            match lookup(rest, key) {
                Some(value) => {
                    let i = choose|i: int|
                        0 <= i < rest.len() && #[trigger] rest[i] == (key, value) && forall|j: int|
                            0 <= j < i ==> (#[trigger] rest[j]).0 != key;
                    assert(entries[i + 1] == (key, value));
                    assert forall|j: int| 0 <= j < i + 1 implies (#[trigger] entries[j]).0
                        != key by {
                        if j > 0 {
                            assert(rest[j - 1] == entries[j]);
                        }
                    }
                },
                None => {
                    assert forall|j: int| 0 <= j < entries.len() implies (#[trigger] entries[j]).0
                        != key by {
                        if j > 0 {
                            assert(rest[j - 1] == entries[j]);
                        }
                    }
                },
            }
        }
    }
}

/// Following keys is following all but the last, and looking the last one up there.
pub proof fn law_follow(node: NodeView, keys: Seq<Seq<char>>, key: Seq<char>)
    ensures
        node.follow(seq![]) == Some(node),
        node.follow(keys.push(key)) == (match node.follow(keys) {
            Some(inner) => inner.get(key),
            None => None,
        }),
    decreases keys.len(),
{
    let all = keys.push(key);
    if keys.len() == 0 {
        assert(all.skip(1) == Seq::<Seq<char>>::empty());
        reveal_with_fuel(NodeView::follow, 2);
    } else {
        assert(all[0] == keys[0]);
        assert(all.skip(1) == keys.skip(1).push(key));
        if let Some(next) = node.get(keys[0]) {
            law_follow(next, keys.skip(1), key);
        }
    }
}

/// What `serde_json::from_str` reads in a text.
pub uninterp spec fn json_document(text: Seq<char>) -> Option<NodeView>;

/// What parsing a text as a `toml::Value` reads in it.
pub uninterp spec fn toml_document(text: Seq<char>) -> Option<NodeView>;

/// The value that `serde_json` reads.
#[verifier::external_type_specification]
#[verifier::external_body]
pub struct ExJsonValue(serde_json::Value);

/// The value that `toml` reads.
#[verifier::external_type_specification]
#[verifier::external_body]
pub struct ExTomlValue(toml::Value);

/// Turns a `serde_json::Value` into a node, variant by variant and in the
/// order in which its entries are walked. Nothing is stated of it here: what a
/// parsed text becomes has a name.
#[verifier::external_body]
fn json_node(value: serde_json::Value) -> (r: Node) {
    match value {
        serde_json::Value::String(s) => Node::Text(s),
        serde_json::Value::Array(items) => Node::List(items.into_iter().map(json_node).collect()),
        serde_json::Value::Object(entries) => Node::Table(
            entries.into_iter().map(|(key, item)| (key, json_node(item))).collect(),
        ),
        serde_json::Value::Null => Node::Other,
        serde_json::Value::Bool(_) => Node::Other,
        serde_json::Value::Number(_) => Node::Other,
    }
}

/// Turns a `toml::Value` into a node, variant by variant and in the order in
/// which its entries are walked. Nothing is stated of it here: what a parsed
/// text becomes has a name.
#[verifier::external_body]
fn toml_node(value: toml::Value) -> (r: Node) {
    match value {
        toml::Value::String(s) => Node::Text(s),
        toml::Value::Array(items) => Node::List(items.into_iter().map(toml_node).collect()),
        toml::Value::Table(entries) => Node::Table(
            entries.into_iter().map(|(key, item)| (key, toml_node(item))).collect(),
        ),
        toml::Value::Integer(_) => Node::Other,
        toml::Value::Float(_) => Node::Other,
        toml::Value::Boolean(_) => Node::Other,
        toml::Value::Datetime(_) => Node::Other,
    }
}

/// Calls `serde_json::from_str`. What it reads depends on the text alone and
/// has a name; the grammar of JSON is not stated.
#[verifier::external_body]
pub(crate) fn parse_json(text: &str) -> (r: Option<Node>)
    ensures
        node_view(r) == json_document(text@),
{
    match serde_json::from_str::<serde_json::Value>(text) {
        Ok(value) => Some(json_node(value)),
        Err(_) => None,
    }
}

/// Parses a text as a `toml::Value`. What is read depends on the text alone
/// and has a name; the grammar of TOML is not stated.
#[verifier::external_body]
pub(crate) fn parse_toml(text: &str) -> (r: Option<Node>)
    ensures
        node_view(r) == toml_document(text@),
{
    match text.parse::<toml::Value>() {
        Ok(value) => Some(toml_node(value)),
        Err(_) => None,
    }
}

/// The view of a node that may be absent, behind a reference.
pub open spec fn node_ref_view(n: Option<&Node>) -> Option<NodeView> {
    match n {
        Some(v) => Some(v@),
        None => None,
    }
}

/// The view of a table goes entry by entry.
pub proof fn lemma_table_view(v: Vec<(String, Node)>)
    ensures
        Node::Table(v)@ is Table,
        Node::Table(v)@->Table_0.len() == v@.len(),
        forall|i: int|
            0 <= i < v@.len() ==> #[trigger] Node::Table(v)@->Table_0[i] == (v@[i].0@, v@[i].1@),
{
}

/// The view of a list goes item by item.
pub proof fn lemma_list_view(v: Vec<Node>)
    ensures
        Node::List(v)@ is List,
        Node::List(v)@->List_0.len() == v@.len(),
        forall|i: int| 0 <= i < v@.len() ==> #[trigger] Node::List(v)@->List_0[i] == v@[i]@,
{
}

/// Entries as mathematical values.
pub open spec fn entries_view(v: Seq<(String, Node)>) -> Seq<(Seq<char>, NodeView)> {
    v.map_values(|e: (String, Node)| (e.0@, e.1@))
}

/// Items as mathematical values.
pub open spec fn items_view(v: Seq<Node>) -> Seq<NodeView> {
    v.map_values(|n: Node| n@)
}

/// The entries of a table that may be absent.
pub fn entries_in(n: Option<&Node>) -> (r: Option<&Vec<(String, Node)>>)
    ensures
        match r {
            Some(v) => entries_of(node_ref_view(n)) == entries_view(v@),
            None => entries_of(node_ref_view(n)).len() == 0,
        },
{
    match n {
        Some(Node::Table(v)) => {
            proof {
                lemma_table_view(*v);
                assert(Node::Table(*v)@->Table_0 == entries_view(v@));
            }
            Some(v)
        },
        _ => None,
    }
}

/// The items of a list that may be absent.
pub fn items_in(n: Option<&Node>) -> (r: Option<&Vec<Node>>)
    ensures
        match r {
            Some(v) => items_of(node_ref_view(n)) == items_view(v@),
            None => items_of(node_ref_view(n)).len() == 0,
        },
{
    match n {
        Some(Node::List(v)) => {
            proof {
                lemma_list_view(*v);
                assert(Node::List(*v)@->List_0 == items_view(v@));
            }
            Some(v)
        },
        _ => None,
    }
}

impl Node {
    /// Reads a JSON text.
    pub fn from_json(text: &str) -> (r: Option<Node>)
        ensures
            node_view(r) == json_document(text@),
    {
        parse_json(text)
    }

    /// Reads a TOML text.
    pub fn from_toml(text: &str) -> (r: Option<Node>)
        ensures
            node_view(r) == toml_document(text@),
    {
        parse_toml(text)
    }

    /// The value under a key of a table.
    pub fn get(&self, key: &[char]) -> (r: Option<&Node>)
        ensures
            node_ref_view(r) == self@.get(key@),
    {
        match self {
            Node::Table(entries) => {
                let ghost all = entries_of(Some(self@));
                proof {
                    lemma_table_view(*entries);
                    assert(all.skip(0) == all);
                }
                for i in 0..entries.len()
                    invariant
                        *self == Node::Table(*entries),
                        all == entries_of(Some(self@)),
                        all == Node::Table(*entries)@->Table_0,
                        all.len() == entries@.len(),
                        lookup(all, key@) == lookup(all.skip(i as int), key@),
                {
                    let name = chars_of(entries[i].0.as_str());
                    proof {
                        lemma_table_view(*entries);
                    }
                    assert(all.skip(i as int)[0] == all[i as int]);
                    assert(all[i as int] == (entries@[i as int].0@, entries@[i as int].1@));
                    if same(name.as_slice(), key) {
                        return Some(&entries[i].1);
                    }
                    assert(all.skip(i as int).skip(1) == all.skip(i as int + 1));
                }
                None
            },
            _ => None,
        }
    }

    /// The value under a string key of a table.
    pub fn get_str(&self, key: &str) -> (r: Option<&Node>)
        ensures
            node_ref_view(r) == self@.get(key@),
    {
        let cs = chars_of(key);
        self.get(cs.as_slice())
    }

    /// The value under a key whose parts stand between dots.
    pub fn resolve(&self, key: &str) -> (r: Option<&Node>)
        ensures
            node_ref_view(r) == self@.resolve(key@),
    {
        let cs = chars_of(key);
        let parts = split_on(cs.as_slice(), '.');
        let ghost keys = split(key@, '.');
        let mut current: &Node = self;
        assert(keys.skip(0) == keys);
        for i in 0..parts.len()
            invariant
                keys == split(key@, '.'),
                parts_view(parts@) == keys,
                self@.follow(keys) == current@.follow(keys.skip(i as int)),
        {
            assert(keys.skip(i as int)[0] == parts@[i as int]@);
            match current.get(parts[i].as_slice()) {
                Some(next) => {
                    assert(keys.skip(i as int).skip(1) == keys.skip(i as int + 1));
                    current = next;
                },
                None => {
                    return None;
                },
            }
        }
        Some(current)
    }
}

} // verus!
