//! Parameters written as a YAML document: nested mappings become dotted
//! keys, scalars their values.
use vstd::prelude::*;
use vstd::string::*;
use crate::keyed::StrKeyMap;
use crate::strs::{trim, trim_spec};
use super::{ParMap, ParTreeModel, write_model};
use crate::keyed::{keys_distinct, entries_map};

verus! {

/// A node of a YAML document, as far as parameters read it.
#[derive(Debug)]
pub enum YamlValue {
    /// An empty value.
    Null,
    /// A boolean.
    Bool(bool),
    /// A number, as the document spells it.
    Number(String),
    /// A string.
    Str(String),
    /// A mapping with string keys, in document order.
    Mapping(Vec<(String, YamlValue)>),
    /// Anything else (a sequence, a tagged value), as the parser prints it.
    Other(String),
}

/// How a boolean is written as a parameter.
pub open spec fn bool_text(b: bool) -> Seq<char> {
    if b {
        seq!['t', 'r', 'u', 'e']
    } else {
        seq!['f', 'a', 'l', 's', 'e']
    }
}

/// The error for a node that no parameter can hold.
pub open spec fn invalid_symbol(text: Seq<char>) -> Seq<char> {
    seq!['i', 'n', 'v', 'a', 'l', 'i', 'd', ' ', 's', 'y', 'm', 'b', 'o', 'l', ':', ' '] + text
}

/// The key of the entry `key` of a mapping under `prefix`.
pub open spec fn nested_key(prefix: Seq<char>, key: Seq<char>) -> Seq<char> {
    prefix + seq!['.'] + key
}

/// The parameters after the node `v` was written under `prefix` into
/// `acc`: a scalar is one parameter, a mapping one per entry (in order,
/// under the entry's nested key); anything else is an error.
pub open spec fn flatten_value(prefix: Seq<char>, v: YamlValue, acc: Map<Seq<char>, Seq<char>>) -> Result<Map<Seq<char>, Seq<char>>, Seq<char>>
    decreases v, 1int,
{
    match v {
        YamlValue::Null => Ok(acc.insert(prefix, Seq::empty())),
        YamlValue::Bool(b) => Ok(acc.insert(prefix, bool_text(b))),
        YamlValue::Number(n) => Ok(acc.insert(prefix, n@)),
        YamlValue::Str(s) => Ok(acc.insert(prefix, s@)),
        YamlValue::Mapping(entries) => flatten_entries(prefix, entries@, acc),
        YamlValue::Other(text) => Err(invalid_symbol(text@)),
    }
}

/// `flatten_value` over the entries of a mapping under `prefix`, in order;
/// the first error stops it.
pub open spec fn flatten_entries(prefix: Seq<char>, es: Seq<(String, YamlValue)>, acc: Map<Seq<char>, Seq<char>>) -> Result<Map<Seq<char>, Seq<char>>, Seq<char>>
    decreases es, 0int,
{
    if es.len() == 0 {
        Ok(acc)
    } else {
        match flatten_entries(prefix, es.subrange(0, es.len() - 1), acc) {
            Ok(a) => flatten_value(nested_key(prefix, es[es.len() - 1].0@), es[es.len() - 1].1, a),
            Err(e) => Err(e),
        }
    }
}

/// The parameters of a whole document: each top-level entry written under
/// its own key, in order.
pub open spec fn flatten_document(doc: Seq<(String, YamlValue)>, acc: Map<Seq<char>, Seq<char>>) -> Result<Map<Seq<char>, Seq<char>>, Seq<char>>
    decreases doc.len(),
{
    if doc.len() == 0 {
        Ok(acc)
    } else {
        match flatten_document(doc.drop_last(), acc) {
            Ok(a) => flatten_value(doc.last().0@, doc.last().1, a),
            Err(e) => Err(e),
        }
    }
}

proof fn lemma_entries_error_stays(prefix: Seq<char>, es: Seq<(String, YamlValue)>, acc: Map<Seq<char>, Seq<char>>, j: int, e: Seq<char>)
    requires
        0 <= j <= es.len(),
        flatten_entries(prefix, es.subrange(0, j), acc) == Err::<Map<Seq<char>, Seq<char>>, Seq<char>>(e),
    ensures
        flatten_entries(prefix, es, acc) == Err::<Map<Seq<char>, Seq<char>>, Seq<char>>(e),
    decreases es.len() - j,
{
    if j == es.len() {
        assert(es.subrange(0, j) =~= es);
    } else {
        let next = es.subrange(0, j + 1);
        assert(next.subrange(0, next.len() - 1) =~= es.subrange(0, j));
        lemma_entries_error_stays(prefix, es, acc, j + 1, e);
    }
}

proof fn lemma_document_error_stays(doc: Seq<(String, YamlValue)>, acc: Map<Seq<char>, Seq<char>>, j: int, e: Seq<char>)
    requires
        0 <= j <= doc.len(),
        flatten_document(doc.take(j), acc) == Err::<Map<Seq<char>, Seq<char>>, Seq<char>>(e),
    ensures
        flatten_document(doc, acc) == Err::<Map<Seq<char>, Seq<char>>, Seq<char>>(e),
    decreases doc.len() - j,
{
    if j == doc.len() {
        assert(doc.take(j) =~= doc);
    } else {
        let next = doc.take(j + 1);
        assert(next.drop_last() =~= doc.take(j));
        lemma_document_error_stays(doc, acc, j + 1, e);
    }
}

/// What reading `s` as a boolean gives, as Rust's `bool::from_str` does: it
/// accepts exactly the words `true` and `false`.
pub open spec fn bool_from_text(s: Seq<char>) -> Option<bool> {
    if s == seq!['t', 'r', 'u', 'e'] {
        Some(true)
    } else if s == seq!['f', 'a', 'l', 's', 'e'] {
        Some(false)
    } else {
        None
    }
}

/// A YAML boolean keeps its value as a parameter: written under `prefix`, it
/// becomes a text that reads back as the same boolean, and no other
/// parameter changes. So `true` and `false` are stored differently.
pub proof fn law_yaml_bool_round_trips(prefix: Seq<char>, b: bool, acc: Map<Seq<char>, Seq<char>>)
    ensures
        flatten_value(prefix, YamlValue::Bool(b), acc) matches Ok(m)
            && m.dom().contains(prefix)
            && bool_from_text(m[prefix]) == Some(b)
            && m.remove(prefix) == acc.remove(prefix),
        flatten_value(prefix, YamlValue::Bool(true), acc)->Ok_0[prefix]
            != flatten_value(prefix, YamlValue::Bool(false), acc)->Ok_0[prefix],
{
    let m = flatten_value(prefix, YamlValue::Bool(b), acc)->Ok_0;
    assert(m.remove(prefix) =~= acc.remove(prefix));
    assert(seq!['t', 'r', 'u', 'e'] != seq!['f', 'a', 'l', 's', 'e']) by {
        assert(seq!['t', 'r', 'u', 'e'].len() != seq!['f', 'a', 'l', 's', 'e'].len());
    }
}

/// The texts of the values of a map of strings.
pub open spec fn texts(m: Map<Seq<char>, String>) -> Map<Seq<char>, Seq<char>> {
    m.map_values(|v: String| v@)
}

/// Writes the node `value` under `prefix` into `target`, as
/// `flatten_value` says; on an error `target` may hold part of it.
pub fn fix_value_map(prefix: &str, value: &YamlValue, target: &mut StrKeyMap<String>) -> (r: Result<(), String>)
    ensures
        match flatten_value(prefix@, *value, texts(old(target)@)) {
            Ok(m) => r is Ok && texts(final(target)@) == m,
            Err(e) => r matches Err(x) && x@ == e,
        },
    decreases value,
{
    match value {
        YamlValue::Null => {
            target.insert(String::from_str(prefix), String::new());
            proof {
                assert(texts(target@) =~= texts(old(target)@).insert(prefix@, Seq::empty()));
            }
            Ok(())
        },
        YamlValue::Bool(b) => {
            let text = if *b {
                String::from_str("true")
            } else {
                String::from_str("false")
            };
            proof {
                reveal_strlit("true");
                reveal_strlit("false");
                assert(text@ =~= bool_text(*b));
            }
            target.insert(String::from_str(prefix), text);
            proof {
                assert(texts(target@) =~= texts(old(target)@).insert(prefix@, bool_text(*b)));
            }
            Ok(())
        },
        YamlValue::Number(n) => {
            target.insert(String::from_str(prefix), n.clone());
            proof {
                assert(texts(target@) =~= texts(old(target)@).insert(prefix@, n@));
            }
            Ok(())
        },
        YamlValue::Str(s) => {
            target.insert(String::from_str(prefix), s.clone());
            proof {
                assert(texts(target@) =~= texts(old(target)@).insert(prefix@, s@));
            }
            Ok(())
        },
        YamlValue::Mapping(entries) => {
            let ghost acc0 = texts(old(target)@);
            let ghost es = entries@;
            let n = entries.len();
            let mut i: usize = 0;
            proof {
                assert(es.subrange(0, 0) =~= Seq::<(String, YamlValue)>::empty());
            }
            while i < n
                invariant
                    n == es.len(),
                    es == entries@,
                    i <= n,
                    flatten_entries(prefix@, es.subrange(0, i as int), acc0) == Ok::<Map<Seq<char>, Seq<char>>, Seq<char>>(texts(target@)),
                    flatten_value(prefix@, *value, acc0) == flatten_entries(prefix@, es, acc0),
                    acc0 == texts(old(target)@),
                    *value == YamlValue::Mapping(*entries),
                decreases n - i,
            {
                let mut key = String::from_str(prefix);
                key.append(".");
                key.append(entries[i].0.as_str());
                let ghost before = texts(target@);
                let ghost next = es.subrange(0, i + 1);
                proof {
                    reveal_strlit(".");
                    assert(key@ =~= nested_key(prefix@, es[i as int].0@));
                    assert(next.subrange(0, next.len() - 1) =~= es.subrange(0, i as int));
                    assert(next[next.len() - 1] == es[i as int]);
                    let item = entries@[i as int];
                    assert((*value)->Mapping_0 == *entries);
                    assert(decreases_to!(*value => (*value)->Mapping_0));
                    assert(decreases_to!(*entries => entries@));
                    assert(decreases_to!(entries@ => item));
                    assert(decreases_to!(item => item.1));
                }
                let res = fix_value_map(key.as_str(), &entries[i].1, target);
                match res {
                    Ok(()) => {},
                    Err(e) => {
                        proof {
                            assert(flatten_entries(prefix@, next, acc0) == Err::<Map<Seq<char>, Seq<char>>, Seq<char>>(e@));
                            lemma_entries_error_stays(prefix@, es, acc0, i + 1, e@);
                        }
                        return Err(e);
                    },
                }
                i = i + 1;
            }
            proof {
                assert(es.subrange(0, n as int) =~= es);
            }
            Ok(())
        },
        YamlValue::Other(text) => {
            let mut msg = String::from_str("invalid symbol: ");
            msg.append(text.as_str());
            proof {
                reveal_strlit("invalid symbol: ");
                assert(msg@ =~= invalid_symbol(text@));
            }
            Err(msg)
        },
    }
}

/// The parameters of a document: every top-level entry written under its
/// own key, as `flatten_document` says, or its first error.
pub fn yaml_to_par_map(doc: &Vec<(String, YamlValue)>) -> (r: Result<StrKeyMap<String>, String>)
    ensures
        match flatten_document(doc@, Map::empty()) {
            Ok(m) => r matches Ok(map) && texts(map@) == m,
            Err(e) => r matches Err(x) && x@ == e,
        },
{
    let mut result: StrKeyMap<String> = StrKeyMap::new();
    proof {
        assert(texts(result@) =~= Map::<Seq<char>, Seq<char>>::empty());
    }
    let n = doc.len();
    let mut i: usize = 0;
    while i < n
        invariant
            n == doc@.len(),
            i <= n,
            flatten_document(doc@.take(i as int), Map::empty()) == Ok::<Map<Seq<char>, Seq<char>>, Seq<char>>(texts(result@)),
        decreases n - i,
    {
        proof {
            let next = doc@.take(i + 1);
            assert(next.drop_last() =~= doc@.take(i as int));
            assert(next.last() == doc@[i as int]);
        }
        match fix_value_map(doc[i].0.as_str(), &doc[i].1, &mut result) {
            Ok(()) => {},
            Err(e) => {
                proof {
                    lemma_document_error_stays(doc@, Map::empty(), i + 1, e@);
                }
                return Err(e);
            },
        }
        i = i + 1;
    }
    proof {
        assert(doc@.take(n as int) =~= doc@);
    }
    Ok(result)
}

/// The store after writing each pair, key and value trimmed, in order.
pub open spec fn build_writes(m: ParTreeModel, pairs: Seq<(Seq<char>, String)>) -> ParTreeModel
    decreases pairs.len(),
{
    if pairs.len() == 0 {
        m
    } else {
        write_model(build_writes(m, pairs.drop_last()), trim_spec(pairs.last().0), trim_spec(pairs.last().1@)).0
    }
}

impl ParMap {
    /// Creates new entries from parameters read from a document: each key
    /// and value trimmed, in order.
    pub fn build(&mut self, pairs: &StrKeyMap<String>)
        ensures
            final(self).model() == build_writes(old(self).model(), pairs.entries_spec()),
            keys_distinct(pairs.entries_spec()),
    {
        let n = pairs.len();
        let mut i: usize = 0;
        while i < n
            invariant
                n == pairs.spec_len(),
                i <= n,
                self.model() == build_writes(old(self).model(), pairs.entries_spec().take(i as int)),
            decreases n - i,
        {
            let key = trim(pairs.key_at(i));
            let value = trim(pairs.value_at(i).as_str());
            self.insert(key, String::from_str(value));
            proof {
                let next = pairs.entries_spec().take(i + 1);
                assert(next.drop_last() =~= pairs.entries_spec().take(i as int));
                assert(next.last() == pairs.entries_spec()[i as int]);
            }
            i = i + 1;
        }
        proof {
            assert(pairs.entries_spec().take(n as int) =~= pairs.entries_spec());
        }
    }
}

/// A parsed YAML node of `serde_yml`.
#[verifier::external_type_specification]
#[verifier::external_body]
pub struct ExYamlNode(serde_yml::Value);

/// The entries of the top-level mapping that `serde_yml::from_str` reads from
/// `text`, in document order, each node as parameters read it; `None` where
/// the text is no YAML mapping.
pub uninterp spec fn yaml_mapping(text: Seq<char>) -> Option<Seq<(String, YamlValue)>>;

/// A `serde_yml` node as parameters read it: one variant for each kind of
/// node, numbers as `serde_yml` prints them, sequences and tagged values by
/// their debug form.
#[verifier::external_body]
pub fn yaml_node(v: serde_yml::Value) -> (r: YamlValue) {
    match v {
        serde_yml::Value::Null => YamlValue::Null,
        serde_yml::Value::Bool(b) => YamlValue::Bool(b),
        serde_yml::Value::Number(n) => YamlValue::Number(n.to_string()),
        serde_yml::Value::String(s) => YamlValue::Str(s),
        serde_yml::Value::Mapping(m) => YamlValue::Mapping(m.into_iter().map(|(k, v)| (k, yaml_node(v))).collect()),
        other => YamlValue::Other(format!("{other:?}")),
    }
}

/// Parses `text` as a YAML mapping (`serde_yml::from_str`), keeping the
/// order of its entries; `None` where `serde_yml` refuses it.
#[verifier::external_body]
pub fn parse_yaml_mapping(text: &str) -> (r: Option<Vec<(String, YamlValue)>>)
    ensures
        match r {
            Some(doc) => yaml_mapping(text@) == Some(doc@),
            None => yaml_mapping(text@) is None,
        },
{
    match serde_yml::from_str::<serde_yml::Mapping>(text) {
        Ok(map) => Some(map.into_iter().map(|(k, v)| (k, yaml_node(v))).collect()),
        Err(_) => None,
    }
}

/// Creates new entries from raw YAML text: the text must be a mapping, and
/// nested mappings give dotted keys. Where the text is no YAML mapping, or
/// holds a node no parameter can hold, the store stays as it was and the
/// error comes back.
pub fn include_yaml(map: &mut ParMap, raw_text: &str) -> (r: Result<(), String>)
    ensures
        match yaml_mapping(raw_text@) {
            None => r is Err && final(map).model() == old(map).model(),
            Some(doc) => match flatten_document(doc, Map::empty()) {
                Err(e) => (r matches Err(x) && x@ == e) && final(map).model() == old(map).model(),
                Ok(m) => r is Ok && exists|pairs: Seq<(Seq<char>, String)>|
                    keys_distinct(pairs) && #[trigger] texts(entries_map(pairs)) == m
                    && final(map).model() == build_writes(old(map).model(), pairs),
            },
        },
{
    match parse_yaml_mapping(raw_text) {
        None => Err(String::from_str("failed to parse par")),
        Some(doc) => match yaml_to_par_map(&doc) {
            Err(e) => Err(e),
            Ok(pairs) => {
                map.build(&pairs);
                Ok(())
            },
        },
    }
}

} // verus!
