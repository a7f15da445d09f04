//! Channel lists in TOML.

use crate::config::{channel_record_to_entry, record_entry, ChannelRecord, DvbV5Entry, EntryView,
    RecordView};
use crate::channel::Settings;
use crate::error::{outcome_list, Error, ErrorView};
use crate::text::{decimal, decimal_text, lemma_texts_push, same_text, texts};
use crate::text_map::TextMap;
use crate::views::{lemma_views_push, views};
use vstd::prelude::*;

verus! {

// ---- Values ----------------------------------------------------------------

/// A value of a TOML document. What is no text carries the text that it is
/// written with as a setting.
#[derive(Debug)]
pub enum TomlNode {
    Text(String),
    /// A number, a truth value or a date.
    Scalar(String),
    List(Vec<TomlNode>, String),
    Table(Vec<(String, TomlNode)>, String),
}

/// A value of a TOML document, with its text as characters.
pub enum TomlTree {
    Text(Seq<char>),
    Scalar(Seq<char>),
    List(Seq<TomlTree>, Seq<char>),
    Table(Seq<(Seq<char>, TomlTree)>, Seq<char>),
}

/// A value of a TOML document, with its text as characters.
pub open spec fn tree(node: TomlNode) -> TomlTree
    decreases node,
{
    match node {
        TomlNode::Text(s) => TomlTree::Text(s@),
        TomlNode::Scalar(s) => TomlTree::Scalar(s@),
        TomlNode::List(items, s) => TomlTree::List(
            Seq::new(
                items@.len(),
                |i: int|
                    if 0 <= i < items@.len() {
                        tree(items@[i])
                    } else {
                        TomlTree::Text(Seq::empty())
                    },
            ),
            s@,
        ),
        TomlNode::Table(pairs, s) => TomlTree::Table(
            Seq::new(
                pairs@.len(),
                |i: int|
                    if 0 <= i < pairs@.len() {
                        (pairs@[i].0@, tree(pairs@[i].1))
                    } else {
                        (Seq::empty(), TomlTree::Text(Seq::empty()))
                    },
            ),
            s@,
        ),
    }
}

// ---- Parsing ---------------------------------------------------------------

/// `toml::Value`, a value of a TOML document.
#[verifier::external_type_specification]
#[verifier::external_body]
pub struct ExTomlValue(toml::Value);

/// What a `toml::Value` holds.
pub uninterp spec fn toml_contents(v: toml::Value) -> TomlTree;

/// What the `toml` crate makes of a document: its value, or the text of its
/// error.
pub uninterp spec fn toml_document(text: Seq<char>) -> Result<TomlTree, Seq<char>>;

/// The outermost part of a `toml::Value`.
pub enum TomlLayer {
    Text(String),
    Integer(i64),
    Boolean(bool),
    Float(String),
    Datetime(String),
    List(Vec<toml::Value>),
    Table(Vec<(String, toml::Value)>),
}

/// An integer in decimal.
pub open spec fn integer_text(i: i64) -> Seq<char> {
    if i < 0 {
        seq!['-'] + decimal((-i) as nat)
    } else {
        decimal(i as nat)
    }
}

/// What a value holds by its outermost part, where `rendered` is the text that
/// the `toml` crate writes for the whole.
pub open spec fn layer_contents(layer: TomlLayer, rendered: Seq<char>) -> TomlTree {
    match layer {
        TomlLayer::Text(s) => TomlTree::Text(s@),
        TomlLayer::Integer(i) => TomlTree::Scalar(integer_text(i)),
        TomlLayer::Boolean(b) => TomlTree::Scalar(
            if b {
                "true"@
            } else {
                "false"@
            },
        ),
        TomlLayer::Float(s) => TomlTree::Scalar(s@),
        TomlLayer::Datetime(s) => TomlTree::Scalar(s@),
        TomlLayer::List(items) => TomlTree::List(
            items@.map_values(|v: toml::Value| toml_contents(v)),
            rendered,
        ),
        TomlLayer::Table(pairs) => TomlTree::Table(
            pairs@.map_values(|p: (String, toml::Value)| (p.0@, toml_contents(p.1))),
            rendered,
        ),
    }
}

/// `str::parse::<toml::Value>`: parses a document. The outcome depends on the
/// text alone; what it is, is named and not described.
#[verifier::external_body]
fn parse_toml(text: &str) -> (out: Result<toml::Value, String>)
    ensures
        match out {
            Ok(v) => toml_document(text@) == Ok::<TomlTree, Seq<char>>(toml_contents(v)),
            Err(e) => toml_document(text@) == Err::<TomlTree, Seq<char>>(e@),
        },
{
    match text.parse::<toml::Value>() {
        Ok(v) => Ok(v),
        Err(e) => Err(e.to_string()),
    }
}

/// The text that a list or a table stands for as a setting.
pub open spec fn rendered(t: TomlTree) -> Seq<char> {
    match t {
        TomlTree::List(_, s) => s,
        TomlTree::Table(_, s) => s,
        _ => Seq::empty(),
    }
}

/// `toml::Value`'s `Display`: the text of a list or a table, in TOML.
#[verifier::external_body]
fn render_toml(v: &toml::Value) -> (out: String)
    ensures
        toml_contents(*v) is List || toml_contents(*v) is Table ==> out@ == rendered(
            toml_contents(*v),
        ),
{
    v.to_string()
}

/// The variants of `toml::Value`: texts, integers and truth values as they are,
/// floating-point numbers and dates by their text, lists and tables by their
/// parts, in order.
#[verifier::external_body]
fn open_toml(v: toml::Value) -> (out: TomlLayer)
    ensures
        layer_contents(out, rendered(toml_contents(v))) == toml_contents(v),
{
    match v {
        toml::Value::String(s) => TomlLayer::Text(s),
        toml::Value::Integer(i) => TomlLayer::Integer(i),
        toml::Value::Boolean(b) => TomlLayer::Boolean(b),
        toml::Value::Float(f) => TomlLayer::Float(f.to_string()),
        toml::Value::Datetime(d) => TomlLayer::Datetime(d.to_string()),
        toml::Value::Array(items) => TomlLayer::List(items),
        toml::Value::Table(pairs) => TomlLayer::Table(pairs.into_iter().collect()),
    }
}

/// An integer in decimal.
fn write_integer(i: i64) -> (out: String)
    ensures
        out@ == integer_text(i),
{
    if i < 0 {
        let mut out = String::new();
        out.push('-');
        out.append(&decimal_text((-(i as i128)) as u128));
        assert(out@ =~= integer_text(i));
        out
    } else {
        decimal_text(i as u128)
    }
}

/// What a value holds.
fn node_of(v: toml::Value) -> (node: TomlNode)
    ensures
        tree(node) == toml_contents(v),
    decreases toml_contents(v),
{
    let text = render_toml(&v);
    let ghost whole = toml_contents(v);
    match open_toml(v) {
        TomlLayer::Text(s) => TomlNode::Text(s),
        TomlLayer::Integer(i) => TomlNode::Scalar(write_integer(i)),
        TomlLayer::Boolean(b) => TomlNode::Scalar(
            if b {
                "true".to_owned()
            } else {
                "false".to_owned()
            },
        ),
        TomlLayer::Float(s) => TomlNode::Scalar(s),
        TomlLayer::Datetime(s) => TomlNode::Scalar(s),
        TomlLayer::List(items) => {
            let ghost all = items@;
            let ghost trees = items@.map_values(|v: toml::Value| toml_contents(v));
            let mut queue = items;
            let mut nodes: Vec<TomlNode> = Vec::new();
            let ghost mut i: int = 0;
            assert(queue@ =~= all.skip(0));
            while queue.len() > 0
                invariant
                    0 <= i <= all.len(),
                    queue@ == all.skip(i),
                    nodes@.len() == i,
                    trees == all.map_values(|v: toml::Value| toml_contents(v)),
                    whole matches TomlTree::List(parts, _) && parts == trees,
                    forall|k: int| 0 <= k < i ==> tree(#[trigger] nodes@[k]) == trees[k],
                    toml_contents(v) == whole,
                decreases queue@.len(),
            {
                let ghost rest = queue@;
                let item = queue.remove(0);
                proof {
                    assert(item == all[i]);
                    assert(trees[i] == toml_contents(item));
                    assert(queue@ =~= all.skip(i + 1));
                    assert(decreases_to!(whole => trees));
                    assert(decreases_to!(trees => trees[i]));
                }
                nodes.push(node_of(item));
                proof {
                    i = i + 1;
                }
            }
            assert(all.skip(i).len() == 0);
            let node = TomlNode::List(nodes, text);
            assert(tree(node) is List);
            assert(tree(node)->List_0 =~= trees);
            node
        },
        TomlLayer::Table(pairs) => {
            let ghost all = pairs@;
            let ghost trees = pairs@.map_values(
                |p: (String, toml::Value)| (p.0@, toml_contents(p.1)),
            );
            let mut queue = pairs;
            let mut nodes: Vec<(String, TomlNode)> = Vec::new();
            let ghost mut i: int = 0;
            assert(queue@ =~= all.skip(0));
            while queue.len() > 0
                invariant
                    0 <= i <= all.len(),
                    queue@ == all.skip(i),
                    nodes@.len() == i,
                    trees == all.map_values(
                        |p: (String, toml::Value)| (p.0@, toml_contents(p.1)),
                    ),
                    whole matches TomlTree::Table(parts, _) && parts == trees,
                    forall|k: int|
                        0 <= k < i ==> ((#[trigger] nodes@[k]).0@, tree(nodes@[k].1)) == trees[k],
                    toml_contents(v) == whole,
                decreases queue@.len(),
            {
                let (key, item) = queue.remove(0);
                proof {
                    assert((key, item) == all[i]);
                    assert(trees[i] == (key@, toml_contents(item)));
                    assert(queue@ =~= all.skip(i + 1));
                    assert(decreases_to!(whole => trees));
                    assert(decreases_to!(trees => trees[i]));
                    assert(decreases_to!(trees[i] => trees[i].1));
                }
                let node = node_of(item);
                nodes.push((key, node));
                proof {
                    i = i + 1;
                }
            }
            assert(all.skip(i).len() == 0);
            let node = TomlNode::Table(nodes, text);
            assert(tree(node)->Table_0 =~= trees);
            node
        },
    }
}

// ---- Channels --------------------------------------------------------------

/// The value of a key in a table.
pub open spec fn member(pairs: Seq<(Seq<char>, TomlTree)>, key: Seq<char>) -> Option<TomlTree>
    decreases pairs.len(),
{
    if pairs.len() == 0 {
        None
    } else if pairs[0].0 == key {
        Some(pairs[0].1)
    } else {
        member(pairs.skip(1), key)
    }
}

/// The text of a value as a setting.
pub open spec fn plain_text(t: TomlTree) -> Seq<char> {
    match t {
        TomlTree::Text(s) => s,
        TomlTree::Scalar(s) => s,
        TomlTree::List(_, s) => s,
        TomlTree::Table(_, s) => s,
    }
}

/// The texts of a list; what is no text is passed over.
pub open spec fn only_texts(items: Seq<TomlTree>) -> Seq<Seq<char>>
    decreases items.len(),
{
    if items.len() == 0 {
        Seq::empty()
    } else {
        match items.last() {
            TomlTree::Text(s) => only_texts(items.drop_last()).push(s),
            _ => only_texts(items.drop_last()),
        }
    }
}

/// The keys of a channel that are no settings.
pub open spec fn is_reserved(key: Seq<char>) -> bool {
    ||| key == "name"@
    ||| key == "aliases"@
    ||| key == "legacy_zap_section"@
    ||| key == "tuning"@
    ||| key == "version"@
}

/// Settings with those of a table, where reserved keys may be left out.
pub open spec fn with_settings(
    m: Settings,
    pairs: Seq<(Seq<char>, TomlTree)>,
    but_reserved: bool,
) -> Settings
    decreases pairs.len(),
{
    if pairs.len() == 0 {
        m
    } else {
        let before = with_settings(m, pairs.drop_last(), but_reserved);
        let (key, value) = pairs.last();
        if but_reserved && is_reserved(key) {
            before
        } else {
            before.insert(key, plain_text(value))
        }
    }
}

/// The settings of a channel: those of its table `tuning`, and then those that
/// stand in the channel itself.
pub open spec fn channel_settings(pairs: Seq<(Seq<char>, TomlTree)>) -> Settings {
    let nested = match member(pairs, "tuning"@) {
        Some(TomlTree::Table(sub, _)) => with_settings(Map::empty(), sub, false),
        _ => Map::empty(),
    };
    with_settings(nested, pairs, true)
}

/// The record of a channel.
pub open spec fn toml_record(item: TomlTree) -> Result<RecordView, ErrorView> {
    match item {
        TomlTree::Table(pairs, _) => match member(pairs, "name"@) {
            Some(TomlTree::Text(name)) => Ok(
                RecordView {
                    name,
                    aliases: match member(pairs, "aliases"@) {
                        Some(TomlTree::List(items, _)) => only_texts(items),
                        _ => Seq::empty(),
                    },
                    legacy_zap_section: match member(pairs, "legacy_zap_section"@) {
                        Some(TomlTree::Text(s)) => Some(s),
                        _ => None,
                    },
                    tuning: channel_settings(pairs),
                },
            ),
            _ => Err(ErrorView::Parse("toml: channel.name required"@)),
        },
        _ => Err(ErrorView::Parse("toml: each channel must be a table"@)),
    }
}

/// The entry of a channel.
pub open spec fn toml_entry(item: TomlTree) -> Result<EntryView, ErrorView> {
    match toml_record(item) {
        Ok(r) => record_entry(r),
        Err(e) => Err(e),
    }
}

/// The entries of channels; the first that is wrong decides.
pub open spec fn toml_entries(items: Seq<TomlTree>) -> Result<Seq<EntryView>, ErrorView>
    decreases items.len(),
{
    if items.len() == 0 {
        Ok(Seq::empty())
    } else {
        match toml_entries(items.drop_last()) {
            Err(e) => Err(e),
            Ok(before) => match toml_entry(items.last()) {
                Err(e) => Err(e),
                Ok(e) => Ok(before.push(e)),
            },
        }
    }
}

/// The entries of a document.
pub open spec fn document_entries(root: TomlTree) -> Result<Seq<EntryView>, ErrorView> {
    let required = ErrorView::Parse("toml: top-level `channels` array required"@);
    match root {
        TomlTree::Table(pairs, _) => match member(pairs, "channels"@) {
            Some(TomlTree::List(items, _)) => toml_entries(items),
            _ => Err(required),
        },
        _ => Err(required),
    }
}

/// The pairs of a table.
pub open spec fn pair_trees(pairs: Seq<(String, TomlNode)>) -> Seq<(Seq<char>, TomlTree)> {
    pairs.map_values(|p: (String, TomlNode)| (p.0@, tree(p.1)))
}

/// The items of a list.
pub open spec fn item_trees(items: Seq<TomlNode>) -> Seq<TomlTree> {
    items.map_values(|n: TomlNode| tree(n))
}

/// A list or a table holds what its parts hold.
proof fn lemma_tree_parts(node: TomlNode)
    ensures
        node matches TomlNode::List(items, s) ==> tree(node) == TomlTree::List(
            item_trees(items@),
            s@,
        ),
        node matches TomlNode::Table(pairs, s) ==> tree(node) == TomlTree::Table(
            pair_trees(pairs@),
            s@,
        ),
{
    match node {
        TomlNode::List(items, s) => {
            assert(tree(node)->List_0 =~= item_trees(items@));
        },
        TomlNode::Table(pairs, s) => {
            assert(tree(node)->Table_0 =~= pair_trees(pairs@));
        },
        _ => {},
    }
}

/// The value of a key in a table.
fn get_member<'a>(pairs: &'a Vec<(String, TomlNode)>, key: &str) -> (out: Option<&'a TomlNode>)
    ensures
        match out {
            Some(n) => member(pair_trees(pairs@), key@) == Some(tree(*n)),
            None => member(pair_trees(pairs@), key@) is None,
        },
{
    let ghost all = pair_trees(pairs@);
    let mut i: usize = 0;
    assert(all.skip(0) =~= all);
    while i < pairs.len()
        invariant
            all == pair_trees(pairs@),
            i <= pairs@.len(),
            member(all, key@) == member(all.skip(i as int), key@),
        decreases pairs@.len() - i,
    {
        assert(all.skip(i as int)[0] == all[i as int]);
        assert(all.skip(i as int).skip(1) =~= all.skip(i + 1));
        if same_text(pairs[i].0.as_str(), key) {
            return Some(&pairs[i].1);
        }
        i += 1;
    }
    None
}

/// The text of a value as a setting.
fn toml_scalar_to_string(node: &TomlNode) -> (out: String)
    ensures
        out@ == plain_text(tree(*node)),
{
    match node {
        TomlNode::Text(s) => s.clone(),
        TomlNode::Scalar(s) => s.clone(),
        TomlNode::List(_, s) => s.clone(),
        TomlNode::Table(_, s) => s.clone(),
    }
}

/// The texts of a list.
fn read_texts(items: &Vec<TomlNode>) -> (out: Vec<String>)
    ensures
        texts(out@) == only_texts(item_trees(items@)),
{
    let ghost all = item_trees(items@);
    let mut out: Vec<String> = Vec::new();
    let mut i: usize = 0;
    assert(all.take(0) =~= Seq::<TomlTree>::empty());
    assert(texts(out@) =~= Seq::<Seq<char>>::empty());
    while i < items.len()
        invariant
            all == item_trees(items@),
            i <= items@.len(),
            texts(out@) == only_texts(all.take(i as int)),
        decreases items@.len() - i,
    {
        assert(all.take(i + 1).drop_last() =~= all.take(i as int));
        assert(all.take(i + 1).last() == tree(items@[i as int]));
        if let TomlNode::Text(s) = &items[i] {
            let copy = s.clone();
            proof {
                lemma_texts_push(out@, copy);
            }
            out.push(copy);
        }
        i += 1;
    }
    assert(all.take(i as int) =~= all);
    out
}

fn reserved(key: &str) -> (yes: bool)
    ensures
        yes == is_reserved(key@),
{
    same_text(key, "name") || same_text(key, "aliases") || same_text(key, "legacy_zap_section")
        || same_text(key, "tuning") || same_text(key, "version")
}

/// Adds the settings of a table.
fn add_settings(m: &mut TextMap, pairs: &Vec<(String, TomlNode)>, but_reserved: bool)
    ensures
        final(m)@ == with_settings(old(m)@, pair_trees(pairs@), but_reserved),
{
    let ghost all = pair_trees(pairs@);
    let mut i: usize = 0;
    assert(all.take(0) =~= Seq::<(Seq<char>, TomlTree)>::empty());
    while i < pairs.len()
        invariant
            all == pair_trees(pairs@),
            i <= pairs@.len(),
            m@ == with_settings(old(m)@, all.take(i as int), but_reserved),
        decreases pairs@.len() - i,
    {
        assert(all.take(i + 1).drop_last() =~= all.take(i as int));
        assert(all.take(i + 1).last() == all[i as int]);
        let key = &pairs[i].0;
        if !(but_reserved && reserved(key.as_str())) {
            m.insert(key.clone(), toml_scalar_to_string(&pairs[i].1));
        }
        i += 1;
    }
    assert(all.take(i as int) =~= all);
}

/// The record of a channel.
fn read_record(item: &TomlNode) -> (out: Result<ChannelRecord, Error>)
    ensures
        match out {
            Ok(r) => toml_record(tree(*item)) == Ok::<RecordView, ErrorView>(r@),
            Err(e) => toml_record(tree(*item)) == Err::<RecordView, ErrorView>(e@),
        },
{
    proof {
        lemma_tree_parts(*item);
    }
    let pairs = match item {
        TomlNode::Table(pairs, _) => pairs,
        _ => {
            return Err(Error::Parse("toml: each channel must be a table".to_owned()));
        },
    };
    let name = match get_member(pairs, "name") {
        Some(TomlNode::Text(s)) => s.clone(),
        Some(other) => {
            proof {
                lemma_tree_parts(*other);
            }
            return Err(Error::Parse("toml: channel.name required".to_owned()));
        },
        None => {
            return Err(Error::Parse("toml: channel.name required".to_owned()));
        },
    };
    let aliases = match get_member(pairs, "aliases") {
        Some(node) => {
            proof {
                lemma_tree_parts(*node);
            }
            match node {
                TomlNode::List(items, _) => read_texts(items),
                _ => Vec::new(),
            }
        },
        None => Vec::new(),
    };
    assert(aliases@.len() == 0 ==> texts(aliases@) =~= Seq::<Seq<char>>::empty());
    let legacy_zap_section = match get_member(pairs, "legacy_zap_section") {
        Some(node) => {
            proof {
                lemma_tree_parts(*node);
            }
            match node {
                TomlNode::Text(s) => Some(s.clone()),
                _ => None,
            }
        },
        None => None,
    };
    let mut tuning = TextMap::new();
    if let Some(node) = get_member(pairs, "tuning") {
        proof {
            lemma_tree_parts(*node);
        }
        if let TomlNode::Table(sub, _) = node {
            add_settings(&mut tuning, sub, false);
        }
    }
    add_settings(&mut tuning, pairs, true);
    Ok(ChannelRecord { name, aliases, legacy_zap_section, tuning })
}

/// The entries of channels.
fn read_entries(items: &Vec<TomlNode>) -> (out: Result<Vec<DvbV5Entry>, Error>)
    ensures
        outcome_list(out) == toml_entries(item_trees(items@)),
{
    let ghost all = item_trees(items@);
    let mut out: Vec<DvbV5Entry> = Vec::new();
    let mut i: usize = 0;
    assert(all.take(0) =~= Seq::<TomlTree>::empty());
    assert(views(out@) =~= Seq::<EntryView>::empty());
    while i < items.len()
        invariant
            all == item_trees(items@),
            i <= items@.len(),
            toml_entries(all.take(i as int)) == Ok::<Seq<EntryView>, ErrorView>(views(out@)),
        decreases items@.len() - i,
    {
        assert(all.take(i + 1).drop_last() =~= all.take(i as int));
        assert(all.take(i + 1).last() == tree(items@[i as int]));
        let record = match read_record(&items[i]) {
            Ok(r) => r,
            Err(e) => {
                proof {
                    lemma_toml_error_stays(all, i + 1);
                }
                return Err(e);
            },
        };
        match channel_record_to_entry(record) {
            Ok(e) => {
                proof {
                    lemma_views_push(out@, e);
                }
                out.push(e);
            },
            Err(e) => {
                proof {
                    lemma_toml_error_stays(all, i + 1);
                }
                return Err(e);
            },
        }
        i += 1;
    }
    assert(all.take(i as int) =~= all);
    Ok(out)
}

proof fn lemma_toml_error_stays(items: Seq<TomlTree>, n: int)
    requires
        0 <= n <= items.len(),
        toml_entries(items.take(n)) is Err,
    ensures
        toml_entries(items) == toml_entries(items.take(n)),
    decreases items.len() - n,
{
    if n < items.len() {
        assert(items.take(n + 1).drop_last() =~= items.take(n));
        lemma_toml_error_stays(items, n + 1);
    } else {
        assert(items.take(n) =~= items);
    }
}

/// The entries of a document.
pub fn entries_from_toml(root: &TomlNode) -> (out: Result<Vec<DvbV5Entry>, Error>)
    ensures
        outcome_list(out) == document_entries(tree(*root)),
{
    proof {
        lemma_tree_parts(*root);
    }
    if let TomlNode::Table(pairs, _) = root {
        if let Some(node) = get_member(pairs, "channels") {
            proof {
                lemma_tree_parts(*node);
            }
            if let TomlNode::List(items, _) = node {
                return read_entries(items);
            }
        }
    }
    Err(Error::Parse("toml: top-level `channels` array required".to_owned()))
}

/// The entries of a TOML document, from its text.
pub fn load_channel_entries_toml(text: &str) -> (out: Result<Vec<DvbV5Entry>, Error>)
    ensures
        outcome_list(out) == (match toml_document(text@) {
            Ok(root) => document_entries(root),
            Err(e) => Err(ErrorView::Parse(e)),
        }),
{
    match parse_toml(text) {
        Ok(v) => entries_from_toml(&node_of(v)),
        Err(e) => Err(Error::Parse(e)),
    }
}

// ---- Laws ------------------------------------------------------------------

proof fn lemma_reserved_only(m: Settings, pairs: Seq<(Seq<char>, TomlTree)>)
    requires
        forall|i: int| 0 <= i < pairs.len() ==> is_reserved((#[trigger] pairs[i]).0),
    ensures
        with_settings(m, pairs, true) == m,
    decreases pairs.len(),
{
    if pairs.len() > 0 {
        let front = pairs.drop_last();
        assert forall|i: int| 0 <= i < front.len() implies is_reserved((#[trigger] front[i]).0) by {
            assert(front[i] == pairs[i]);
        }
        lemma_reserved_only(m, front);
        assert(pairs[pairs.len() - 1] == pairs.last());
    }
}

proof fn lemma_behind_reserved(
    m: Settings,
    head: Seq<(Seq<char>, TomlTree)>,
    sub: Seq<(Seq<char>, TomlTree)>,
)
    requires
        forall|i: int| 0 <= i < head.len() ==> is_reserved((#[trigger] head[i]).0),
        forall|i: int| 0 <= i < sub.len() ==> !is_reserved((#[trigger] sub[i]).0),
    ensures
        with_settings(m, head + sub, true) == with_settings(m, sub, false),
    decreases sub.len(),
{
    if sub.len() == 0 {
        assert(head + sub =~= head);
        lemma_reserved_only(m, head);
    } else {
        let front = sub.drop_last();
        assert forall|i: int| 0 <= i < front.len() implies !is_reserved((#[trigger] front[i]).0) by {
            assert(front[i] == sub[i]);
        }
        lemma_behind_reserved(m, head, front);
        assert((head + sub).drop_last() =~= head + front);
        assert((head + sub).last() == sub.last());
        assert(sub[sub.len() - 1] == sub.last());
    }
}

proof fn lemma_no_member(pairs: Seq<(Seq<char>, TomlTree)>, key: Seq<char>)
    requires
        forall|i: int| 0 <= i < pairs.len() ==> (#[trigger] pairs[i]).0 != key,
    ensures
        member(pairs, key) is None,
    decreases pairs.len(),
{
    if pairs.len() > 0 {
        let rest = pairs.skip(1);
        assert forall|i: int| 0 <= i < rest.len() implies (#[trigger] rest[i]).0 != key by {
            assert(rest[i] == pairs[i + 1]);
        }
        assert(pairs[0].0 != key);
        lemma_no_member(rest, key);
    }
}

proof fn lemma_member_at_end(
    head: Seq<(Seq<char>, TomlTree)>,
    key: Seq<char>,
    value: TomlTree,
)
    requires
        forall|i: int| 0 <= i < head.len() ==> (#[trigger] head[i]).0 != key,
    ensures
        member(head.push((key, value)), key) == Some(value),
    decreases head.len(),
{
    let pairs = head.push((key, value));
    if head.len() > 0 {
        let rest = head.skip(1);
        assert forall|i: int| 0 <= i < rest.len() implies (#[trigger] rest[i]).0 != key by {
            assert(rest[i] == head[i + 1]);
        }
        lemma_member_at_end(rest, key, value);
        assert(pairs.skip(1) =~= rest.push((key, value)));
        assert(pairs[0] == head[0]);
    }
}

/// Settings stand in a table `tuning` or in the channel itself: it makes no
/// difference.
pub proof fn law_settings_nested_or_flat(
    head: Seq<(Seq<char>, TomlTree)>,
    sub: Seq<(Seq<char>, TomlTree)>,
    text: Seq<char>,
)
    requires
        forall|i: int|
            0 <= i < head.len() ==> is_reserved((#[trigger] head[i]).0) && head[i].0 != "tuning"@,
        forall|i: int| 0 <= i < sub.len() ==> !is_reserved((#[trigger] sub[i]).0),
    ensures
        channel_settings(head.push(("tuning"@, TomlTree::Table(sub, text)))) == channel_settings(
            head + sub,
        ),
{
    let table = TomlTree::Table(sub, text);
    let nested = head.push(("tuning"@, table));
    lemma_member_at_end(head, "tuning"@, table);
    lemma_reserved_only(with_settings(Map::empty(), sub, false), nested);
    let flat = head + sub;
    assert forall|i: int| 0 <= i < flat.len() implies (#[trigger] flat[i]).0 != "tuning"@ by {
        if i < head.len() {
            assert(flat[i] == head[i]);
        } else {
            assert(flat[i] == sub[i - head.len()]);
        }
    }
    lemma_no_member(flat, "tuning"@);
    lemma_behind_reserved(Map::empty(), head, sub);
}

} // verus!
