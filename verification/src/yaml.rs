//! A YAML document as plain values, and the operations on mappings that the
//! compose logic needs. Text is turned into a document, and back, by the
//! `serde_yml` crate; everything else here is verified.
//!
//! Mappings keep their insertion order. Setting an existing key replaces its
//! value in place; removing a key moves the last entry into its slot (the
//! order `serde_yml`'s mapping keeps).

use vstd::prelude::*;
use crate::text::{str_eq, string_views};
use serde_yml::value::{Tag, TaggedValue};
use serde_yml::{Number, Value};

verus! {

/// A YAML value.
pub enum Yaml {
    Null,
    Bool(bool),
    /// A number, by its YAML text.
    Number(String),
    Str(String),
    Sequence(Vec<Yaml>),
    /// Entries in document order.
    Mapping(Vec<(Yaml, Yaml)>),
    /// A `!tag`ged value.
    Tagged(String, Box<Yaml>),
}

/// The mathematical form of a YAML value.
pub enum YamlV {
    Null,
    Bool(bool),
    Number(Seq<char>),
    Str(Seq<char>),
    Sequence(Seq<YamlV>),
    Mapping(Seq<(YamlV, YamlV)>),
    Tagged(Seq<char>, Box<YamlV>),
}

pub open spec fn yv(y: Yaml) -> YamlV
    decreases y,
{
    match y {
        Yaml::Null => YamlV::Null,
        Yaml::Bool(b) => YamlV::Bool(b),
        Yaml::Number(n) => YamlV::Number(n@),
        Yaml::Str(s) => YamlV::Str(s@),
        Yaml::Sequence(v) => YamlV::Sequence(
            Seq::new(
                v@.len(),
                |i: int|
                    if 0 <= i < v@.len() {
                        yv(v@[i])
                    } else {
                        YamlV::Null
                    },
            ),
        ),
        Yaml::Mapping(m) => YamlV::Mapping(
            Seq::new(
                m@.len(),
                |i: int|
                    if 0 <= i < m@.len() {
                        (yv(m@[i].0), yv(m@[i].1))
                    } else {
                        (YamlV::Null, YamlV::Null)
                    },
            ),
        ),
        Yaml::Tagged(t, b) => YamlV::Tagged(t@, Box::new(yv(*b))),
    }
}

impl View for Yaml {
    type V = YamlV;

    open spec fn view(&self) -> YamlV {
        yv(*self)
    }
}

/// The views of mapping entries.
pub open spec fn entries_view(m: Seq<(Yaml, Yaml)>) -> Seq<(YamlV, YamlV)> {
    Seq::new(m.len(), |i: int| (m[i].0@, m[i].1@))
}

/// The views of sequence items.
pub open spec fn items_view(v: Seq<Yaml>) -> Seq<YamlV> {
    Seq::new(v.len(), |i: int| v[i]@)
}

pub proof fn lemma_view_mapping(m: Vec<(Yaml, Yaml)>)
    ensures
        Yaml::Mapping(m)@ == YamlV::Mapping(entries_view(m@)),
{
    assert(yv(Yaml::Mapping(m)) == YamlV::Mapping(entries_view(m@))) by {
        if let YamlV::Mapping(s) = yv(Yaml::Mapping(m)) {
            assert(s =~= entries_view(m@));
        }
    }
}

pub proof fn lemma_view_sequence(v: Vec<Yaml>)
    ensures
        Yaml::Sequence(v)@ == YamlV::Sequence(items_view(v@)),
{
    assert(yv(Yaml::Sequence(v)) == YamlV::Sequence(items_view(v@))) by {
        if let YamlV::Sequence(s) = yv(Yaml::Sequence(v)) {
            assert(s =~= items_view(v@));
        }
    }
}

// ---------------------------------------------------------------------------
// Text
// ---------------------------------------------------------------------------

/// The document `serde_yml` reads from `text` (as a `serde_yml::Value`), if
/// the text is valid YAML.
pub uninterp spec fn yaml_parse(text: Seq<char>) -> Option<YamlV>;

/// The text `serde_yml` writes for `doc`, if it can serialize it.
pub uninterp spec fn yaml_emit(doc: YamlV) -> Option<Seq<char>>;

#[verifier::external_type_specification]
#[verifier::external_body]
pub struct ExYamlValue(Value);

/// A `serde_yml::Value` as a `Yaml`, node for node (numbers by their text).
/// Used only inside `parse_yaml`.
#[verifier::external_body]
fn from_value(v: Value) -> Yaml {
    match v {
        Value::Null => Yaml::Null,
        Value::Bool(b) => Yaml::Bool(b),
        Value::Number(n) => Yaml::Number(n.to_string()),
        Value::String(s) => Yaml::Str(s),
        Value::Sequence(s) => Yaml::Sequence(s.into_iter().map(from_value).collect()),
        Value::Mapping(m) => Yaml::Mapping(m.into_iter().map(|(k, v)| (from_value(k), from_value(v))).collect()),
        Value::Tagged(t) => Yaml::Tagged(t.tag.string, Box::new(from_value(t.value))),
    }
}

/// A `Yaml` as a `serde_yml::Value`, node for node; a number whose text
/// `serde_yml` does not read as a number stays text. Used only inside
/// `emit_yaml`.
#[verifier::external_body]
fn to_value(y: Yaml) -> Value {
    match y {
        Yaml::Null => Value::Null,
        Yaml::Bool(b) => Value::Bool(b),
        Yaml::Number(n) => n.parse::<Number>().map(Value::Number).unwrap_or(Value::String(n)),
        Yaml::Str(s) => Value::String(s),
        Yaml::Sequence(s) => Value::Sequence(s.into_iter().map(to_value).collect()),
        Yaml::Mapping(m) => Value::Mapping(m.into_iter().map(|(k, v)| (to_value(k), to_value(v))).collect()),
        Yaml::Tagged(t, b) => Value::Tagged(Box::new(TaggedValue { tag: Tag { string: t }, value: to_value(*b) })),
    }
}

/// `serde_yml::from_str::<serde_yml::Value>`: the document in `text`, or None
/// when it is not valid YAML. The contract names the result (`yaml_parse`);
/// what a given text parses to is the crate's grammar.
#[verifier::external_body]
pub(crate) fn parse_yaml(text: &str) -> (r: Option<Yaml>)
    ensures
        match r {
            Some(doc) => yaml_parse(text@) == Some(doc@),
            None => yaml_parse(text@) is None,
        },
{
    serde_yml::from_str::<Value>(text).ok().map(from_value)
}

/// `serde_yml::to_string` of the document: its text, or the error message.
/// The contract names the text (`yaml_emit`); the layout is the crate's, and
/// the wording of an error message is not stated.
#[verifier::external_body]
pub(crate) fn emit_yaml(doc: Yaml) -> (r: Result<String, String>)
    ensures
        match r {
            Ok(s) => yaml_emit(doc@) == Some(s@),
            Err(_) => yaml_emit(doc@) is None,
        },
{
    serde_yml::to_string(&to_value(doc)).map_err(|e| e.to_string())
}

// ---------------------------------------------------------------------------
// Reading values
// ---------------------------------------------------------------------------

/// The value under any `!tag`s.
pub open spec fn untag(v: YamlV) -> YamlV
    decreases v,
{
    match v {
        YamlV::Tagged(_, b) => untag(*b),
        _ => v,
    }
}

pub open spec fn as_mapping(v: YamlV) -> Option<Seq<(YamlV, YamlV)>> {
    match untag(v) {
        YamlV::Mapping(m) => Some(m),
        _ => None,
    }
}

pub open spec fn as_sequence(v: YamlV) -> Option<Seq<YamlV>> {
    match untag(v) {
        YamlV::Sequence(s) => Some(s),
        _ => None,
    }
}

pub open spec fn as_str(v: YamlV) -> Option<Seq<char>> {
    match untag(v) {
        YamlV::Str(s) => Some(s),
        _ => None,
    }
}

/// A mapping key matches a string index only when it is that string.
pub open spec fn key_is(k: YamlV, name: Seq<char>) -> bool {
    k == YamlV::Str(name)
}

/// `i` is the position of the entry for `name`.
pub open spec fn key_at(m: Seq<(YamlV, YamlV)>, name: Seq<char>, i: int) -> bool {
    0 <= i < m.len() && key_is(m[i].0, name) && forall|j: int| 0 <= j < i ==> !key_is(#[trigger] m[j].0, name)
}

pub open spec fn has_key(m: Seq<(YamlV, YamlV)>, name: Seq<char>) -> bool {
    exists|i: int| key_at(m, name, i)
}

pub open spec fn key_index(m: Seq<(YamlV, YamlV)>, name: Seq<char>) -> int {
    choose|i: int| key_at(m, name, i)
}

/// The value under `name`.
pub open spec fn map_get(m: Seq<(YamlV, YamlV)>, name: Seq<char>) -> Option<YamlV> {
    if has_key(m, name) {
        Some(m[key_index(m, name)].1)
    } else {
        None
    }
}

/// `name` set to `v`: in place when present, else appended.
pub open spec fn map_set(m: Seq<(YamlV, YamlV)>, name: Seq<char>, v: YamlV) -> Seq<(YamlV, YamlV)> {
    if has_key(m, name) {
        let i = key_index(m, name);
        m.update(i, (m[i].0, v))
    } else {
        m.push((YamlV::Str(name), v))
    }
}

/// `name` removed; the last entry moves into its slot.
pub open spec fn map_del(m: Seq<(YamlV, YamlV)>, name: Seq<char>) -> Seq<(YamlV, YamlV)> {
    if has_key(m, name) {
        let i = key_index(m, name);
        m.update(i, m.last()).drop_last()
    } else {
        m
    }
}

/// A sequence of strings.
pub open spec fn str_items(items: Seq<Seq<char>>) -> YamlV {
    YamlV::Sequence(Seq::new(items.len(), |i: int| YamlV::Str(items[i])))
}

/// A mapping with an entry for `name` has a first one.
pub proof fn lemma_has_key_of(m: Seq<(YamlV, YamlV)>, name: Seq<char>, j: int)
    requires
        0 <= j < m.len(),
        key_is(m[j].0, name),
    ensures
        has_key(m, name),
    decreases j,
{
    if forall|k: int| 0 <= k < j ==> !key_is(#[trigger] m[k].0, name) {
        assert(key_at(m, name, j));
    } else {
        let k = choose|k: int| 0 <= k < j && key_is(#[trigger] m[k].0, name);
        lemma_has_key_of(m, name, k);
    }
}

pub proof fn lemma_key_at_unique(m: Seq<(YamlV, YamlV)>, name: Seq<char>, i: int, j: int)
    requires
        key_at(m, name, i),
        key_at(m, name, j),
    ensures
        i == j,
{
    if i < j {
        assert(!key_is(m[i].0, name));
    }
    if j < i {
        assert(!key_is(m[j].0, name));
    }
}

/// No two entries have the same key (as in any mapping a parser gives).
pub open spec fn unique_keys(m: Seq<(YamlV, YamlV)>) -> bool {
    forall|i: int, j: int| 0 <= i < m.len() && 0 <= j < m.len() && i != j ==> #[trigger] m[i].0 != #[trigger] m[j].0
}

/// The entry for `name`, when one exists, is the one at `i`.
proof fn lemma_map_get_at(m: Seq<(YamlV, YamlV)>, name: Seq<char>, i: int)
    requires
        unique_keys(m),
        0 <= i < m.len(),
        key_is(m[i].0, name),
    ensures
        map_get(m, name) == Some(m[i].1),
{
    lemma_has_key_of(m, name, i);
    let k = key_index(m, name);
    assert(key_at(m, name, k));
    if k != i {
        assert(m[k].0 == m[i].0);
    }
}

/// Without an entry whose key is `name`, there is no value for it.
proof fn lemma_map_get_none(m: Seq<(YamlV, YamlV)>, name: Seq<char>)
    requires
        forall|i: int| 0 <= i < m.len() ==> !key_is(#[trigger] m[i].0, name),
    ensures
        map_get(m, name) is None,
{
    if has_key(m, name) {
        let k = key_index(m, name);
        assert(key_at(m, name, k));
    }
}

/// The value for `name` in a mapping with unique keys.
proof fn lemma_map_get_unique(m: Seq<(YamlV, YamlV)>, name: Seq<char>)
    requires
        unique_keys(m),
    ensures
        map_get(m, name) == if exists|i: int| 0 <= i < m.len() && key_is(#[trigger] m[i].0, name) {
            Some(m[choose|i: int| 0 <= i < m.len() && key_is(#[trigger] m[i].0, name)].1)
        } else {
            None
        },
{
    if exists|i: int| 0 <= i < m.len() && key_is(#[trigger] m[i].0, name) {
        let i = choose|i: int| 0 <= i < m.len() && key_is(#[trigger] m[i].0, name);
        lemma_map_get_at(m, name, i);
    } else {
        lemma_map_get_none(m, name);
    }
}

/// Setting or removing one key keeps the keys unique.
pub proof fn lemma_map_edit_unique(m: Seq<(YamlV, YamlV)>, name: Seq<char>, v: YamlV)
    requires
        unique_keys(m),
    ensures
        unique_keys(map_set(m, name, v)),
        unique_keys(map_del(m, name)),
{
    let ms = map_set(m, name, v);
    let md = map_del(m, name);
    if has_key(m, name) {
        let i = key_index(m, name);
        assert(key_at(m, name, i));
        assert(ms =~= m.update(i, (m[i].0, v)));
        assert forall|a: int, b: int| 0 <= a < ms.len() && 0 <= b < ms.len() && a != b implies #[trigger] ms[a].0
            != #[trigger] ms[b].0 by {
            assert(ms[a].0 == m[a].0);
            assert(ms[b].0 == m[b].0);
        }
        let n = m.len() - 1;
        assert(md =~= m.update(i, m.last()).drop_last());
        assert forall|a: int, b: int| 0 <= a < md.len() && 0 <= b < md.len() && a != b implies #[trigger] md[a].0
            != #[trigger] md[b].0 by {
            let pa = if a == i { n } else { a };
            let pb = if b == i { n } else { b };
            assert(md[a].0 == m[pa].0);
            assert(md[b].0 == m[pb].0);
        }
    } else {
        assert(ms =~= m.push((YamlV::Str(name), v)));
        assert forall|j: int| 0 <= j < m.len() implies m[j].0 != YamlV::Str(name) by {
            if m[j].0 == YamlV::Str(name) {
                lemma_has_key_of(m, name, j);
            }
        }
        assert forall|a: int, b: int| 0 <= a < ms.len() && 0 <= b < ms.len() && a != b implies #[trigger] ms[a].0
            != #[trigger] ms[b].0 by {
        }
    }
}

/// Setting or removing one key keeps the keys unique and every other key's
/// value.
pub proof fn lemma_map_edit_others(m: Seq<(YamlV, YamlV)>, name: Seq<char>, v: YamlV, other: Seq<char>)
    requires
        unique_keys(m),
        other != name,
    ensures
        unique_keys(map_set(m, name, v)),
        unique_keys(map_del(m, name)),
        map_get(map_set(m, name, v), other) == map_get(m, other),
        map_get(map_del(m, name), other) == map_get(m, other),
{
    lemma_map_edit_unique(m, name, v);
    let ms = map_set(m, name, v);
    let md = map_del(m, name);
    if has_key(m, name) {
        let i = key_index(m, name);
        assert(key_at(m, name, i));
        assert(ms =~= m.update(i, (m[i].0, v)));
        let n = m.len() - 1;
        assert(md =~= m.update(i, m.last()).drop_last());
        lemma_map_get_unique(m, other);
        lemma_map_get_unique(ms, other);
        lemma_map_get_unique(md, other);
        if exists|j: int| 0 <= j < m.len() && key_is(#[trigger] m[j].0, other) {
            let j = choose|j: int| 0 <= j < m.len() && key_is(#[trigger] m[j].0, other);
            assert(j != i);
            assert(key_is(ms[j].0, other));
            lemma_map_get_at(ms, other, j);
            let pj = if j == n { i } else { j };
            assert(md[pj] == m[j]);
            assert(key_is(md[pj].0, other));
            lemma_map_get_at(md, other, pj);
        } else {
            assert forall|j: int| 0 <= j < ms.len() implies !key_is(#[trigger] ms[j].0, other) by {
                assert(ms[j].0 == m[j].0);
            }
            assert forall|j: int| 0 <= j < md.len() implies !key_is(#[trigger] md[j].0, other) by {
                if j == i {
                    assert(md[j] == m[n]);
                } else {
                    assert(md[j] == m[j]);
                }
            }
            lemma_map_get_none(ms, other);
            lemma_map_get_none(md, other);
        }
    } else {
        assert(ms =~= m.push((YamlV::Str(name), v)));
        assert forall|j: int| 0 <= j < m.len() implies m[j].0 != YamlV::Str(name) by {
            if m[j].0 == YamlV::Str(name) {
                lemma_has_key_of(m, name, j);
            }
        }
        assert forall|a: int, b: int| 0 <= a < ms.len() && 0 <= b < ms.len() && a != b implies #[trigger] ms[a].0
            != #[trigger] ms[b].0 by {
        }
        lemma_map_get_unique(m, other);
        if exists|j: int| 0 <= j < m.len() && key_is(#[trigger] m[j].0, other) {
            let j = choose|j: int| 0 <= j < m.len() && key_is(#[trigger] m[j].0, other);
            lemma_map_get_at(m, other, j);
            assert(ms[j] == m[j]);
            lemma_map_get_at(ms, other, j);
        } else {
            assert forall|j: int| 0 <= j < ms.len() implies !key_is(#[trigger] ms[j].0, other) by {
                if j < m.len() {
                    assert(ms[j] == m[j]);
                }
            }
            lemma_map_get_none(ms, other);
        }
    }
}

/// After removing a key from a mapping with unique keys, it has no value.
pub proof fn lemma_map_del_gone(m: Seq<(YamlV, YamlV)>, name: Seq<char>)
    requires
        unique_keys(m),
    ensures
        map_get(map_del(m, name), name) is None,
        unique_keys(map_del(m, name)),
{
    let md = map_del(m, name);
    if has_key(m, name) {
        let i = key_index(m, name);
        assert(key_at(m, name, i));
        let n = m.len() - 1;
        assert(md =~= m.update(i, m.last()).drop_last());
        assert forall|a: int, b: int| 0 <= a < md.len() && 0 <= b < md.len() && a != b implies #[trigger] md[a].0
            != #[trigger] md[b].0 by {
            let pa = if a == i { n } else { a };
            let pb = if b == i { n } else { b };
            assert(md[a].0 == m[pa].0);
            assert(md[b].0 == m[pb].0);
        }
        assert forall|j: int| 0 <= j < md.len() implies !key_is(#[trigger] md[j].0, name) by {
            if j == i {
                assert(md[j] == m[n]);
                assert(n != i);
            } else {
                assert(md[j] == m[j]);
            }
        }
    } else {
        assert forall|j: int| 0 <= j < md.len() implies !key_is(#[trigger] md[j].0, name) by {
            if key_is(m[j].0, name) {
                lemma_has_key_of(m, name, j);
            }
        }
    }
    lemma_map_get_none(md, name);
}

// ---------------------------------------------------------------------------
// Building and copying values
// ---------------------------------------------------------------------------

/// An empty mapping.
pub fn empty_mapping() -> (y: Yaml)
    ensures
        y@ == YamlV::Mapping(seq![]),
{
    let m: Vec<(Yaml, Yaml)> = Vec::new();
    proof {
        lemma_view_mapping(m);
        assert(entries_view(m@) =~= Seq::<(YamlV, YamlV)>::empty());
    }
    Yaml::Mapping(m)
}

pub fn ystr(s: &str) -> (y: Yaml)
    ensures
        y@ == YamlV::Str(s@),
{
    Yaml::Str(s.to_owned())
}

/// A sequence of the given strings.
pub fn ystr_items(items: &Vec<String>) -> (y: Yaml)
    ensures
        y@ == str_items(string_views(items@)),
{
    let mut v: Vec<Yaml> = Vec::new();
    let mut i: usize = 0;
    while i < items.len()
        invariant
            i <= items.len(),
            items_view(v@) == Seq::new(i as nat, |k: int| YamlV::Str(items@[k]@)),
        decreases items.len() - i,
    {
        let ghost before = items_view(v@);
        let y = ystr(items[i].as_str());
        let ghost yv_ = y@;
        v.push(y);
        proof {
            assert(yv_ == YamlV::Str(items@[i as int]@));
            assert(items_view(v@) =~= before.push(yv_));
            assert(items_view(v@) =~= Seq::new((i + 1) as nat, |k: int| YamlV::Str(items@[k]@)));
        }
        i += 1;
    }
    proof {
        lemma_view_sequence(v);
        assert(items_view(v@) =~= Seq::new(
            string_views(items@).len(),
            |k: int| YamlV::Str(string_views(items@)[k]),
        ));
    }
    Yaml::Sequence(v)
}

/// A copy of `y`.
pub fn clone_yaml(y: &Yaml) -> (c: Yaml)
    ensures
        c@ == y@,
    decreases y,
{
    match y {
        Yaml::Null => Yaml::Null,
        Yaml::Bool(b) => Yaml::Bool(*b),
        Yaml::Number(n) => Yaml::Number(n.as_str().to_owned()),
        Yaml::Str(s) => Yaml::Str(s.as_str().to_owned()),
        Yaml::Sequence(v) => {
            let mut out: Vec<Yaml> = Vec::new();
            let mut i: usize = 0;
            while i < v.len()
                invariant
                    *y == Yaml::Sequence(*v),
                    i <= v.len(),
                    items_view(out@) == items_view(v@).take(i as int),
                decreases v.len() - i,
            {
                proof {
                    assert(decreases_to!(*y => (*y)->Sequence_0));
                    assert(decreases_to!(*v => v@));
                    assert(decreases_to!(v@ => v@[i as int]));
                    assert(decreases_to!(*y => v@[i as int]));
                }
                let c = clone_yaml(&v[i]);
                let ghost before = items_view(out@);
                let ghost cv = c@;
                out.push(c);
                proof {
                    assert(items_view(out@) =~= before.push(cv));
                    assert(items_view(out@) =~= items_view(v@).take(i + 1));
                }
                i += 1;
            }
            proof {
                lemma_view_sequence(out);
                lemma_view_sequence(*v);
                assert(items_view(v@).take(v@.len() as int) =~= items_view(v@));
            }
            Yaml::Sequence(out)
        },
        Yaml::Mapping(m) => {
            let mut out: Vec<(Yaml, Yaml)> = Vec::new();
            let mut i: usize = 0;
            while i < m.len()
                invariant
                    *y == Yaml::Mapping(*m),
                    i <= m.len(),
                    entries_view(out@) == entries_view(m@).take(i as int),
                decreases m.len() - i,
            {
                proof {
                    assert(decreases_to!(*y => (*y)->Mapping_0));
                    assert(decreases_to!(*m => m@));
                    assert(decreases_to!(m@ => m@[i as int]));
                    assert(decreases_to!(m@[i as int] => m@[i as int].0));
                    assert(decreases_to!(m@[i as int] => m@[i as int].1));
                    assert(decreases_to!(*y => m@[i as int].0));
                    assert(decreases_to!(*y => m@[i as int].1));
                }
                let k = clone_yaml(&m[i].0);
                let val = clone_yaml(&m[i].1);
                let ghost before = entries_view(out@);
                let ghost kv = (k@, val@);
                out.push((k, val));
                proof {
                    assert(entries_view(out@) =~= before.push(kv));
                    assert(entries_view(out@) =~= entries_view(m@).take(i + 1));
                }
                i += 1;
            }
            proof {
                lemma_view_mapping(out);
                lemma_view_mapping(*m);
                assert(entries_view(m@).take(m@.len() as int) =~= entries_view(m@));
            }
            Yaml::Mapping(out)
        },
        Yaml::Tagged(t, b) => {
            let inner = clone_yaml(b);
            Yaml::Tagged(t.as_str().to_owned(), Box::new(inner))
        },
    }
}

// ---------------------------------------------------------------------------
// Mapping entries
// ---------------------------------------------------------------------------

/// Whether the key is the string `name`.
pub fn key_matches(k: &Yaml, name: &str) -> (b: bool)
    ensures
        b == key_is(k@, name@),
{
    match k {
        Yaml::Str(s) => str_eq(s.as_str(), name),
        _ => false,
    }
}

/// The position of the entry for `name`, if any.
pub fn find_key(m: &Vec<(Yaml, Yaml)>, name: &str) -> (r: Option<usize>)
    ensures
        match r {
            Some(i) => key_at(entries_view(m@), name@, i as int),
            None => !has_key(entries_view(m@), name@),
        },
{
    let ghost e = entries_view(m@);
    let mut i: usize = 0;
    while i < m.len()
        invariant
            e == entries_view(m@),
            i <= m.len(),
            forall|j: int| 0 <= j < i ==> !key_is(#[trigger] e[j].0, name@),
        decreases m.len() - i,
    {
        if key_matches(&m[i].0, name) {
            proof {
                assert(e[i as int].0 == m@[i as int].0@);
            }
            return Some(i);
        }
        proof {
            assert(e[i as int].0 == m@[i as int].0@);
        }
        i += 1;
    }
    proof {
        assert forall|k: int| !key_at(e, name@, k) by {
            if 0 <= k < e.len() {
                assert(!key_is(e[k].0, name@));
            }
        }
    }
    None
}

/// Set `name` to `v`: in place when present, else appended.
pub fn set_entry(m: &mut Vec<(Yaml, Yaml)>, name: &str, v: Yaml)
    ensures
        entries_view(final(m)@) == map_set(entries_view(old(m)@), name@, v@),
{
    let ghost e = entries_view(m@);
    match find_key(m, name) {
        Some(i) => {
            proof {
                lemma_key_at_unique(e, name@, i as int, key_index(e, name@));
            }
            let k = clone_yaml(&m[i].0);
            m.set(i, (k, v));
            proof {
                assert(entries_view(m@) =~= e.update(i as int, (e[i as int].0, v@)));
            }
        },
        None => {
            m.push((ystr(name), v));
            proof {
                assert(entries_view(m@) =~= e.push((YamlV::Str(name@), v@)));
            }
        },
    }
}

/// Remove the entry for `name`, if any; the last entry moves into its slot.
pub fn remove_entry(m: &mut Vec<(Yaml, Yaml)>, name: &str)
    ensures
        entries_view(final(m)@) == map_del(entries_view(old(m)@), name@),
{
    let ghost e = entries_view(m@);
    match find_key(m, name) {
        Some(i) => {
            proof {
                lemma_key_at_unique(e, name@, i as int, key_index(e, name@));
            }
            m.swap_remove(i);
            proof {
                assert(entries_view(m@) =~= e.update(i as int, e.last()).drop_last());
            }
        },
        None => {},
    }
}

/// The value under `name`, if any.
pub fn get_entry<'a>(m: &'a Vec<(Yaml, Yaml)>, name: &str) -> (r: Option<&'a Yaml>)
    ensures
        match r {
            Some(v) => map_get(entries_view(m@), name@) == Some(v@),
            None => map_get(entries_view(m@), name@) is None,
        },
{
    let ghost e = entries_view(m@);
    match find_key(m, name) {
        Some(i) => {
            proof {
                lemma_key_at_unique(e, name@, i as int, key_index(e, name@));
            }
            Some(&m[i].1)
        },
        None => None,
    }
}

/// The value under any `!tag`s.
pub fn untag_ref(y: &Yaml) -> (r: &Yaml)
    ensures
        r@ == untag(y@),
    decreases y,
{
    match y {
        Yaml::Tagged(_, b) => untag_ref(b),
        _ => y,
    }
}

/// The entries of a mapping (under any tags).
pub fn mapping_of(y: &Yaml) -> (r: Option<&Vec<(Yaml, Yaml)>>)
    ensures
        match r {
            Some(m) => as_mapping(y@) == Some(entries_view(m@)),
            None => as_mapping(y@) is None,
        },
{
    match untag_ref(y) {
        Yaml::Mapping(m) => {
            proof {
                lemma_view_mapping(*m);
            }
            Some(m)
        },
        _ => None,
    }
}

/// The items of a sequence (under any tags).
pub fn sequence_of(y: &Yaml) -> (r: Option<&Vec<Yaml>>)
    ensures
        match r {
            Some(v) => as_sequence(y@) == Some(items_view(v@)),
            None => as_sequence(y@) is None,
        },
{
    match untag_ref(y) {
        Yaml::Sequence(v) => {
            proof {
                lemma_view_sequence(*v);
            }
            Some(v)
        },
        _ => None,
    }
}

/// The string (under any tags).
pub fn str_of(y: &Yaml) -> (r: Option<&String>)
    ensures
        match r {
            Some(s) => as_str(y@) == Some(s@),
            None => as_str(y@) is None,
        },
{
    match untag_ref(y) {
        Yaml::Str(s) => Some(s),
        _ => None,
    }
}

} // verus!
