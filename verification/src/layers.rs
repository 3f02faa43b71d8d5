//! Layered agent config files: a file may extend another, and its tables are
//! merged into the other's key by key, while anything that is not a table
//! replaces what it lands on wholesale.

use vstd::prelude::*;

use crate::config::{endpoint_with_port, AgentConfig, AgentControllerConfig};
use crate::dispatch::list_contains;
use crate::error::{ConfigError, ConfigErrorModel};
use crate::strmap::{lemma_sorted_of_is, pairs_to_map, sorted_of, StrMap};
use crate::text::{first_index, lemma_first_index, lemma_first_index_is, lemma_first_index_none, str_eq, to_owned_string};

verus! {

/// A TOML document: strings, integers and booleans as themselves, tables
/// entry by entry, and any other value (a float, a date, an array) as its
/// TOML text, which configuration never reads into a field.
#[derive(Debug, PartialEq, Eq)]
pub enum TomlDoc {
    Str(String),
    Int(i64),
    Bool(bool),
    Other(String),
    Table(Vec<(String, TomlDoc)>),
}

/// The meaning of a `TomlDoc`: its values, and its tables' entries in order.
pub enum TomlModel {
    Str(Seq<char>),
    Int(i64),
    Bool(bool),
    Other(Seq<char>),
    Table(Seq<(Seq<char>, TomlModel)>),
}

/// The model of node `n`.
pub open spec fn node_model(n: TomlDoc) -> TomlModel
    decreases n,
{
    match n {
        TomlDoc::Str(t) => TomlModel::Str(t@),
        TomlDoc::Int(i) => TomlModel::Int(i),
        TomlDoc::Bool(b) => TomlModel::Bool(b),
        TomlDoc::Other(t) => TomlModel::Other(t@),
        TomlDoc::Table(v) => {
            proof {
                assert(decreases_to!(n => v@));
            }
            TomlModel::Table(entries_model(v@))
        },
    }
}

/// The model of the entries `s` of a table.
pub open spec fn entries_model(s: Seq<(String, TomlDoc)>) -> Seq<(Seq<char>, TomlModel)>
    decreases s,
{
    if s.len() == 0 {
        Seq::empty()
    } else {
        proof {
            assert(decreases_to!(s => s[s.len() - 1]));
        }
        entries_model(s.drop_last()).push((s.last().0@, node_model(s.last().1)))
    }
}

/// An entry has key `k`.
pub open spec fn has_key(k: Seq<char>) -> spec_fn((Seq<char>, TomlModel)) -> bool {
    |p: (Seq<char>, TomlModel)| p.0 == k
}

/// Position of the first entry of `s` with key `k`.
pub open spec fn key_pos(s: Seq<(Seq<char>, TomlModel)>, k: Seq<char>) -> Option<nat> {
    first_index(s, has_key(k))
}

/// `over` merged into `base`: two tables merge entry by entry, and in every
/// other case `over` wins whole.
pub open spec fn merged(base: TomlModel, over: TomlModel) -> TomlModel
    decreases over,
{
    match base {
        TomlModel::Table(bs) => match over {
            TomlModel::Table(os) => TomlModel::Table(merged_entries(bs, os)),
            _ => over,
        },
        _ => over,
    }
}

/// The entries `os` merged one after another into the entries `bs`: an
/// entry whose key `bs` has merges into that entry, any other is added at
/// the end.
pub open spec fn merged_entries(bs: Seq<(Seq<char>, TomlModel)>, os: Seq<(Seq<char>, TomlModel)>) -> Seq<
    (Seq<char>, TomlModel),
>
    decreases os,
{
    if os.len() == 0 {
        bs
    } else {
        let acc = merged_entries(bs, os.drop_last());
        let e = os.last();
        proof {
            assert(decreases_to!(os => os[os.len() - 1]));
        }
        match key_pos(acc, e.0) {
            Some(i) => acc.update(i as int, (e.0, merged(acc[i as int].1, e.1))),
            None => acc.push(e),
        }
    }
}

/// The model of a table's entries, entry by entry.
pub proof fn lemma_entries_model(s: Seq<(String, TomlDoc)>)
    ensures
        entries_model(s).len() == s.len(),
        forall|i: int|
            0 <= i < s.len() ==> #[trigger] entries_model(s)[i] == (s[i].0@, node_model(s[i].1)),
    decreases s.len(),
{
    if s.len() > 0 {
        lemma_entries_model(s.drop_last());
    }
}

/// Replacing one entry replaces its model.
proof fn lemma_entries_model_update(s: Seq<(String, TomlDoc)>, i: int, x: (String, TomlDoc))
    requires
        0 <= i < s.len(),
    ensures
        entries_model(s.update(i, x)) == entries_model(s).update(i, (x.0@, node_model(x.1))),
{
    lemma_entries_model(s);
    lemma_entries_model(s.update(i, x));
    assert(entries_model(s.update(i, x)) =~= entries_model(s).update(i, (x.0@, node_model(x.1))));
}

/// Position of the first entry of `v` with key `k`.
fn find_key(v: &Vec<(String, TomlDoc)>, k: &str) -> (r: Option<usize>)
    ensures
        match r {
            Some(i) => key_pos(entries_model(v@), k@) == Some(i as nat) && i < v@.len(),
            None => key_pos(entries_model(v@), k@) is None,
        },
{
    proof {
        lemma_entries_model(v@);
    }
    let ghost p = has_key(k@);
    let n = v.len();
    let mut i: usize = 0;
    while i < n
        invariant
            n == v@.len(),
            i <= n,
            entries_model(v@).len() == n,
            forall|j: int| 0 <= j < n ==> #[trigger] entries_model(v@)[j] == (v@[j].0@, node_model(v@[j].1)),
            p == has_key(k@),
            forall|j: int| 0 <= j < i ==> !p(#[trigger] entries_model(v@)[j]),
        decreases n - i,
    {
        if str_eq(v[i].0.as_str(), k) {
            proof {
                assert(p(entries_model(v@)[i as int]));
                lemma_first_index_is(entries_model(v@), p, i as int);
            }
            return Some(i);
        }
        assert(!p(entries_model(v@)[i as int]));
        i = i + 1;
    }
    proof {
        lemma_first_index_none(entries_model(v@), p);
    }
    None
}

/// A copy of `n`.
pub fn clone_node(n: &TomlDoc) -> (r: TomlDoc)
    ensures
        node_model(r) == node_model(*n),
    decreases n,
{
    match n {
        TomlDoc::Str(t) => TomlDoc::Str(t.clone()),
        TomlDoc::Int(i) => TomlDoc::Int(*i),
        TomlDoc::Bool(b) => TomlDoc::Bool(*b),
        TomlDoc::Other(t) => TomlDoc::Other(t.clone()),
        TomlDoc::Table(v) => {
            let len = v.len();
            let mut out: Vec<(String, TomlDoc)> = Vec::new();
            let mut j: usize = 0;
            while j < len
                invariant
                    *n is Table && (*n)->Table_0 == *v,
                    len == v@.len(),
                    j <= len,
                    entries_model(out@) == entries_model(v@.take(j as int)),
                decreases len - j,
            {
                assert(decreases_to!(*n => v[j as int].1)) by {
                    broadcast use vstd::std_specs::vec::axiom_vec_index_decreases;

                    assert(*n is Table && (*n)->Table_0 == *v);
                    assert(decreases_to!(*n => (*n)->Table_0));
                    assert(decreases_to!(*v => v[j as int]));
                    assert(decreases_to!(v[j as int] => v[j as int].1));
                }
                let c = clone_node(&v[j].1);
                let ghost before = out@;
                out.push((v[j].0.clone(), c));
                proof {
                    assert(v@.take(j + 1).drop_last() =~= v@.take(j as int));
                    assert(out@.drop_last() =~= before);
                }
                j = j + 1;
            }
            assert(v@.take(len as int) =~= v@);
            TomlDoc::Table(out)
        },
    }
}

/// `over` merged into `base`, as an extending file's document is merged
/// into the one it extends.
pub fn merge_toml(base: TomlDoc, over: &TomlDoc) -> (r: TomlDoc)
    ensures
        node_model(r) == merged(node_model(base), node_model(*over)),
    decreases over,
{
    match over {
        TomlDoc::Table(os) => match base {
            TomlDoc::Table(bs) => {
                let ghost b0 = entries_model(bs@);
                let mut acc = bs;
                let len = os.len();
                let mut j: usize = 0;
                while j < len
                    invariant
                        *over is Table && (*over)->Table_0 == *os,
                        len == os@.len(),
                        j <= len,
                        entries_model(acc@) == merged_entries(b0, entries_model(os@.take(j as int))),
                    decreases len - j,
                {
                    let ghost prev = acc@;
                    let ghost e = (os@[j as int].0@, node_model(os@[j as int].1));
                    proof {
                        assert(os@.take(j + 1).drop_last() =~= os@.take(j as int));
                        assert(entries_model(os@.take(j + 1)) == entries_model(os@.take(j as int)).push(e));
                        assert(entries_model(os@.take(j as int)).push(e).drop_last() =~= entries_model(
                            os@.take(j as int),
                        ));
                        lemma_entries_model(prev);
                    }
                    match find_key(&acc, os[j].0.as_str()) {
                        Some(i) => {
                            let (k0, child) = acc.remove(i);
                            assert(decreases_to!(*over => os[j as int].1)) by {
                                broadcast use vstd::std_specs::vec::axiom_vec_index_decreases;

                                assert(*over is Table && (*over)->Table_0 == *os);
                                assert(decreases_to!(*over => (*over)->Table_0));
                                assert(decreases_to!(*os => os[j as int]));
                                assert(decreases_to!(os[j as int] => os[j as int].1));
                            }
                            let m = merge_toml(child, &os[j].1);
                            acc.insert(i, (k0, m));
                            proof {
                                assert(acc@ =~= prev.update(i as int, (k0, m)));
                                lemma_entries_model_update(prev, i as int, (k0, m));
                                lemma_first_index(entries_model(prev), has_key(e.0));
                            }
                        },
                        None => {
                            let c = clone_node(&os[j].1);
                            acc.push((os[j].0.clone(), c));
                            proof {
                                assert(acc@.drop_last() =~= prev);
                            }
                        },
                    }
                    j = j + 1;
                }
                assert(os@.take(len as int) =~= os@);
                TomlDoc::Table(acc)
            },
            _ => clone_node(over),
        },
        _ => clone_node(over),
    }
}

/// The value of key `k` among the entries `s`: that of its first entry.
pub open spec fn entry_of(s: Seq<(Seq<char>, TomlModel)>, k: Seq<char>) -> Option<TomlModel> {
    match key_pos(s, k) {
        Some(i) => Some(s[i as int].1),
        None => None,
    }
}

/// No key occurs twice among the entries `s`, as in a TOML table.
pub open spec fn keys_distinct(s: Seq<(Seq<char>, TomlModel)>) -> bool {
    forall|i: int, j: int| 0 <= i < j < s.len() ==> (#[trigger] s[i]).0 != (#[trigger] s[j]).0
}

/// Where key `k` first occurs after an entry is added at the end.
proof fn lemma_key_pos_push(s: Seq<(Seq<char>, TomlModel)>, e: (Seq<char>, TomlModel), k: Seq<char>)
    ensures
        key_pos(s.push(e), k) == if key_pos(s, k) is Some {
            key_pos(s, k)
        } else if e.0 == k {
            Some(s.len())
        } else {
            None
        },
{
    let p = has_key(k);
    let t = s.push(e);
    lemma_first_index(s, p);
    match key_pos(s, k) {
        Some(i) => {
            assert forall|j: int| 0 <= j < i implies !p(#[trigger] t[j]) by {
                assert(t[j] == s[j]);
            }
            assert(t[i as int] == s[i as int]);
            lemma_first_index_is(t, p, i as int);
        },
        None => {
            assert forall|j: int| 0 <= j < s.len() implies !p(#[trigger] t[j]) by {
                assert(t[j] == s[j]);
            }
            if e.0 == k {
                lemma_first_index_is(t, p, s.len() as int);
            } else {
                lemma_first_index_none(t, p);
            }
        },
    }
}

/// Changing the value of an entry, keeping its key, moves no key.
proof fn lemma_key_pos_update(s: Seq<(Seq<char>, TomlModel)>, i: int, v: TomlModel, k: Seq<char>)
    requires
        0 <= i < s.len(),
    ensures
        key_pos(s.update(i, (s[i].0, v)), k) == key_pos(s, k),
{
    let p = has_key(k);
    let t = s.update(i, (s[i].0, v));
    lemma_first_index(s, p);
    assert forall|j: int| 0 <= j < s.len() implies p(#[trigger] t[j]) == p(s[j]) by {}
    match key_pos(s, k) {
        Some(a) => {
            lemma_first_index_is(t, p, a as int);
        },
        None => {
            lemma_first_index_none(t, p);
        },
    }
}

/// Merging an extending file's table into the extended one, key by key: a
/// key only the extended table has keeps its value, a key only the
/// extending table has gets its value, and a key both have gets the two
/// values merged (so the extending file wins, except inside tables).
pub proof fn law_extends_key_by_key(bs: Seq<(Seq<char>, TomlModel)>, os: Seq<(Seq<char>, TomlModel)>, k: Seq<char>)
    requires
        keys_distinct(os),
    ensures
        entry_of(merged_entries(bs, os), k) == match entry_of(os, k) {
            None => entry_of(bs, k),
            Some(o) => match entry_of(bs, k) {
                Some(b) => Some(merged(b, o)),
                None => Some(o),
            },
        },
    decreases os.len(),
{
    if os.len() == 0 {
        assert(entry_of(os, k) is None);
        assert(merged_entries(bs, os) == bs);
    } else {
        let rest = os.drop_last();
        let e = os.last();
        assert(keys_distinct(rest)) by {
            assert forall|i: int, j: int| 0 <= i < j < rest.len() implies (#[trigger] rest[i]).0 != (
            #[trigger] rest[j]).0 by {
                assert(rest[i] == os[i] && rest[j] == os[j]);
            }
        }
        law_extends_key_by_key(bs, rest, k);
        let acc = merged_entries(bs, rest);
        assert(rest.push(e) =~= os);
        lemma_key_pos_push(rest, e, k);
        // The entry `k` has in `os` is the one it has in `rest`, or the last.
        if e.0 == k {
            lemma_first_index(rest, has_key(k));
            if key_pos(rest, k) is Some {
                let a = key_pos(rest, k)->0;
                assert(os[a as int] == rest[a as int]);
                assert(os[os.len() - 1] == e);
                assert(false);
            }
            assert(entry_of(os, k) == Some(e.1));
            assert(entry_of(rest, k) is None);
        } else {
            match key_pos(rest, k) {
                Some(a) => {
                    lemma_first_index(rest, has_key(k));
                    assert(os[a as int] == rest[a as int]);
                },
                None => {},
            }
            assert(entry_of(os, k) == entry_of(rest, k));
        }
        let res = merged_entries(bs, os);
        match key_pos(acc, e.0) {
            Some(i) => {
                lemma_first_index(acc, has_key(e.0));
                assert(acc[i as int].0 == e.0);
                let t = acc.update(i as int, (e.0, merged(acc[i as int].1, e.1)));
                assert(res == t);
                lemma_key_pos_update(acc, i as int, merged(acc[i as int].1, e.1), k);
                assert(t == acc.update(i as int, (acc[i as int].0, merged(acc[i as int].1, e.1))));
                if e.0 == k {
                    assert(key_pos(acc, k) == Some(i));
                    assert(entry_of(res, k) == Some(merged(acc[i as int].1, e.1)));
                } else {
                    match key_pos(acc, k) {
                        Some(j) => {
                            lemma_first_index(acc, has_key(k));
                            assert(j != i);
                            assert(t[j as int] == acc[j as int]);
                        },
                        None => {},
                    }
                    assert(entry_of(res, k) == entry_of(acc, k));
                }
            },
            None => {
                assert(res == acc.push(e));
                lemma_key_pos_push(acc, e, k);
                match key_pos(acc, k) {
                    Some(j) => {
                        lemma_first_index(acc, has_key(k));
                        assert(acc.push(e)[j as int] == acc[j as int]);
                    },
                    None => {
                        if e.0 == k {
                            assert(acc.push(e)[acc.len() as int] == e);
                        }
                    },
                }
            },
        }
    }
}

// ---------------------------------------------------------------------------
// Reading agent config files
// ---------------------------------------------------------------------------

/// The document TOML text `text` holds, or the parser's message when it is
/// not TOML; the `toml` crate's parser decides.
pub uninterp spec fn toml_doc(text: Seq<char>) -> Result<TomlModel, Seq<char>>;

/// A value the `toml` crate parsed (`toml::Value`), carried opaquely.
#[verifier::external_type_specification]
#[verifier::external_body]
pub struct ExTomlValue(toml::Value);

/// The document form of a value the `toml` crate parsed, one for one:
/// strings, integers and booleans as themselves, tables entry by entry, any
/// other value as its TOML text (`Display` of `toml::Value`).
#[verifier::external_body]
fn doc_of(v: toml::Value) -> TomlDoc {
    match v {
        toml::Value::String(t) => TomlDoc::Str(t),
        toml::Value::Integer(i) => TomlDoc::Int(i),
        toml::Value::Boolean(b) => TomlDoc::Bool(b),
        toml::Value::Table(t) => {
            let mut es = Vec::new();
            for (k, v) in t {
                es.push((k, doc_of(v)));
            }
            TomlDoc::Table(es)
        },
        other => TomlDoc::Other(other.to_string()),
    }
}

/// Parses TOML text with `toml::from_str` into a `toml::Value`. Claimed: the
/// result is the document `toml_doc` names for the text, or the parser's
/// message (its `Display`) when `toml_doc` names one.
#[verifier::external_body]
fn parse_toml(text: &str) -> (r: Result<TomlDoc, String>)
    ensures
        match r {
            Ok(d) => toml_doc(text@) == Ok::<TomlModel, Seq<char>>(node_model(d)),
            Err(m) => toml_doc(text@) == Err::<TomlModel, Seq<char>>(m@),
        },
{
    match toml::from_str::<toml::Value>(text) {
        Ok(v) => Ok(doc_of(v)),
        Err(e) => Err(e.to_string()),
    }
}

/// The document of a config file's text; text that is not TOML is a TOML
/// error with the parser's message.
pub fn parse_config_text(text: &str) -> (r: Result<TomlDoc, ConfigError>)
    ensures
        match toml_doc(text@) {
            Ok(m) => r matches Ok(d) && node_model(d) == m,
            Err(msg) => r matches Err(e) && e.deep_view() == ConfigErrorModel::Toml(msg),
        },
{
    match parse_toml(text) {
        Ok(d) => Ok(d),
        Err(m) => Err(ConfigError::Toml(m)),
    }
}

/// What a file of an `extends` chain leads to.
#[derive(Debug)]
pub enum ExtendsStep {
    /// The file extends the one at `rel_path` (relative to itself); `over`
    /// is its document without the `extends` key.
    Base { rel_path: String, over: TomlDoc },
    /// The file extends nothing: its document.
    Done(TomlDoc),
}

/// The file a document extends, and the document without that key: when it
/// is a table whose (first) `extends` entry is a string.
pub open spec fn extends_of(d: TomlModel) -> Option<(Seq<char>, TomlModel)> {
    match d {
        TomlModel::Table(es) => match key_pos(es, "extends"@) {
            Some(i) => match es[i as int].1 {
                TomlModel::Str(p) => Some((p, TomlModel::Table(es.remove(i as int)))),
                _ => None,
            },
            None => None,
        },
        _ => None,
    }
}

/// Removing one entry removes its model.
proof fn lemma_entries_model_remove(s: Seq<(String, TomlDoc)>, i: int)
    requires
        0 <= i < s.len(),
    ensures
        entries_model(s.remove(i)) == entries_model(s).remove(i),
{
    lemma_entries_model(s);
    lemma_entries_model(s.remove(i));
    assert(entries_model(s.remove(i)) =~= entries_model(s).remove(i));
}

/// A document split at its `extends` key: the file it extends and the rest
/// of it, or the document itself when it extends nothing.
pub fn split_extends(doc: TomlDoc) -> (r: ExtendsStep)
    ensures
        match extends_of(node_model(doc)) {
            Some((p, o)) => r matches ExtendsStep::Base { rel_path, over } && rel_path@ == p && node_model(over) == o,
            None => r matches ExtendsStep::Done(d) && node_model(d) == node_model(doc),
        },
{
    let ghost dm = node_model(doc);
    match doc {
        TomlDoc::Table(mut es) => {
            proof {
                lemma_entries_model(es@);
            }
            match find_key(&es, "extends") {
                Some(i) => {
                    let is_str = match &es[i].1 {
                        TomlDoc::Str(_) => true,
                        _ => false,
                    };
                    if is_str {
                        let ghost es0 = es@;
                        let (_, v) = es.remove(i);
                        proof {
                            lemma_entries_model_remove(es0, i as int);
                        }
                        match v {
                            TomlDoc::Str(p) => ExtendsStep::Base { rel_path: p, over: TomlDoc::Table(es) },
                            other => ExtendsStep::Done(other),
                        }
                    } else {
                        ExtendsStep::Done(TomlDoc::Table(es))
                    }
                },
                None => ExtendsStep::Done(TomlDoc::Table(es)),
            }
        },
        other => ExtendsStep::Done(other),
    }
}

/// What an agent config document sets, field by field.
pub struct AgentFields {
    pub robot_id: Seq<char>,
    pub name: Option<Seq<char>>,
    pub endpoint: Seq<char>,
    pub id_code: Seq<char>,
    pub tls: bool,
    pub ca: Option<Seq<char>>,
    pub server_name: Option<Seq<char>>,
    pub env: Map<Seq<char>, Seq<char>>,
}

/// A field holds a value of the wrong type.
pub open spec fn wrong_type(k: Seq<char>, expected: Seq<char>) -> ConfigErrorModel {
    ConfigErrorModel::Toml("invalid type for `"@ + k + "`, expected "@ + expected)
}

/// A key the schema does not know.
pub open spec fn unknown_field(k: Seq<char>) -> ConfigErrorModel {
    ConfigErrorModel::Toml("unknown field `"@ + k + "`"@)
}

/// A required key is absent.
pub open spec fn missing_field(k: Seq<char>) -> ConfigErrorModel {
    ConfigErrorModel::Toml("missing field `"@ + k + "`"@)
}

/// The keys of an agent config (`controller` false) or of its
/// `[controller]` table (`controller` true).
pub open spec fn key_allowed(controller: bool, k: Seq<char>) -> bool {
    if controller {
        k == "endpoint"@ || k == "id_code"@ || k == "tls"@ || k == "ca"@ || k == "server_name"@
    } else {
        k == "robot_id"@ || k == "name"@ || k == "controller"@ || k == "env"@
    }
}

/// Position of the first entry of `s` whose key the table does not allow.
pub open spec fn first_unknown(s: Seq<(Seq<char>, TomlModel)>, controller: bool) -> Option<nat> {
    first_index(s, |p: (Seq<char>, TomlModel)| !key_allowed(controller, p.0))
}

/// A string field: absent, a string, or the wrong type.
pub open spec fn str_field(s: Seq<(Seq<char>, TomlModel)>, k: Seq<char>) -> Result<Option<Seq<char>>, ConfigErrorModel> {
    match entry_of(s, k) {
        None => Ok(None),
        Some(TomlModel::Str(v)) => Ok(Some(v)),
        Some(_) => Err(wrong_type(k, "a string"@)),
    }
}

/// A boolean field: absent, a boolean, or the wrong type.
pub open spec fn bool_field(s: Seq<(Seq<char>, TomlModel)>, k: Seq<char>) -> Result<Option<bool>, ConfigErrorModel> {
    match entry_of(s, k) {
        None => Ok(None),
        Some(TomlModel::Bool(b)) => Ok(Some(b)),
        Some(_) => Err(wrong_type(k, "a boolean"@)),
    }
}

/// The map a table of strings denotes (a later key wins).
pub open spec fn strings_map(s: Seq<(Seq<char>, TomlModel)>) -> Map<Seq<char>, Seq<char>>
    decreases s.len(),
{
    if s.len() == 0 {
        Map::empty()
    } else {
        match s.last().1 {
            TomlModel::Str(v) => strings_map(s.drop_last()).insert(s.last().0, v),
            _ => strings_map(s.drop_last()),
        }
    }
}

/// The `env` field: absent (empty), or a table of strings.
pub open spec fn env_field(s: Seq<(Seq<char>, TomlModel)>) -> Result<Map<Seq<char>, Seq<char>>, ConfigErrorModel> {
    match entry_of(s, "env"@) {
        None => Ok(Map::empty()),
        Some(TomlModel::Table(es)) => if forall|i: int| 0 <= i < es.len() ==> (#[trigger] es[i]).1 is Str {
            Ok(strings_map(es))
        } else {
            Err(wrong_type("env"@, "a table of strings"@))
        },
        Some(_) => Err(wrong_type("env"@, "a table of strings"@)),
    }
}

/// The `[controller]` table: no unknown key, fields of the right types
/// (checked in schema order), `endpoint` and `id_code` present.
pub open spec fn controller_fields(c: TomlModel) -> Result<
    (Seq<char>, Seq<char>, bool, Option<Seq<char>>, Option<Seq<char>>),
    ConfigErrorModel,
> {
    match c {
        TomlModel::Table(s) => match first_unknown(s, true) {
            Some(i) => Err(unknown_field(s[i as int].0)),
            None => match str_field(s, "endpoint"@) {
                Err(e) => Err(e),
                Ok(ep) => match str_field(s, "id_code"@) {
                    Err(e) => Err(e),
                    Ok(ic) => match bool_field(s, "tls"@) {
                        Err(e) => Err(e),
                        Ok(tls) => match str_field(s, "ca"@) {
                            Err(e) => Err(e),
                            Ok(ca) => match str_field(s, "server_name"@) {
                                Err(e) => Err(e),
                                Ok(sn) => match ep {
                                    None => Err(missing_field("endpoint"@)),
                                    Some(ep) => match ic {
                                        None => Err(missing_field("id_code"@)),
                                        Some(ic) => Ok(
                                            (
                                                ep,
                                                ic,
                                                match tls {
                                                    Some(b) => b,
                                                    None => false,
                                                },
                                                ca,
                                                sn,
                                            ),
                                        ),
                                    },
                                },
                            },
                        },
                    },
                },
            },
        },
        _ => Err(wrong_type("controller"@, "a table"@)),
    }
}

/// An agent config document read against its schema: a table with no
/// unknown key, fields of the right types (in schema order), and a
/// `[controller]` table; `robot_id` defaults to empty and `env` to nothing.
pub open spec fn agent_fields(d: TomlModel) -> Result<AgentFields, ConfigErrorModel> {
    match d {
        TomlModel::Table(s) => match first_unknown(s, false) {
            Some(i) => Err(unknown_field(s[i as int].0)),
            None => match str_field(s, "robot_id"@) {
                Err(e) => Err(e),
                Ok(id) => match str_field(s, "name"@) {
                    Err(e) => Err(e),
                    Ok(name) => match entry_of(s, "controller"@) {
                        None => Err(missing_field("controller"@)),
                        Some(c) => match controller_fields(c) {
                            Err(e) => Err(e),
                            Ok((ep, ic, tls, ca, sn)) => match env_field(s) {
                                Err(e) => Err(e),
                                Ok(env) => Ok(
                                    AgentFields {
                                        robot_id: match id {
                                            Some(v) => v,
                                            None => Seq::empty(),
                                        },
                                        name,
                                        endpoint: ep,
                                        id_code: ic,
                                        tls,
                                        ca,
                                        server_name: sn,
                                        env,
                                    },
                                ),
                            },
                        },
                    },
                },
            },
        },
        _ => Err(wrong_type("config"@, "a table"@)),
    }
}

/// The document of an `extends` chain, base-most file first: each file
/// merged over those before it.
pub open spec fn chain_doc(docs: Seq<TomlModel>) -> TomlModel
    decreases docs.len(),
{
    if docs.len() == 0 {
        TomlModel::Table(Seq::empty())
    } else if docs.len() == 1 {
        docs[0]
    } else {
        merged(chain_doc(docs.drop_last()), docs.last())
    }
}

/// The models of a chain's documents.
pub open spec fn docs_model(docs: Seq<TomlDoc>) -> Seq<TomlModel> {
    docs.map_values(|d: TomlDoc| node_model(d))
}

/// The value of an optional string.
pub open spec fn opt_model(o: Option<String>) -> Option<Seq<char>> {
    match o {
        Some(v) => Some(v@),
        None => None,
    }
}

/// A `ConfigError::Toml` with message `a + k + b`.
fn toml_error3(a: &str, k: &str, b: &str) -> (e: ConfigError)
    ensures
        e.deep_view() == ConfigErrorModel::Toml(a@ + k@ + b@),
{
    let mut m = to_owned_string(a);
    m.append(k);
    m.append(b);
    ConfigError::Toml(m)
}

/// The error of field `k` holding a value of the wrong type.
fn wrong_type_error(k: &str, expected: &str) -> (e: ConfigError)
    ensures
        e.deep_view() == wrong_type(k@, expected@),
{
    let mut m = to_owned_string("invalid type for `");
    m.append(k);
    m.append("`, expected ");
    m.append(expected);
    ConfigError::Toml(m)
}

/// Position of the first entry whose key the table does not allow.
fn find_unknown(es: &Vec<(String, TomlDoc)>, controller: bool) -> (r: Option<usize>)
    ensures
        match r {
            Some(i) => first_unknown(entries_model(es@), controller) == Some(i as nat) && i < es@.len(),
            None => first_unknown(entries_model(es@), controller) is None,
        },
{
    proof {
        lemma_entries_model(es@);
    }
    let ghost p = |q: (Seq<char>, TomlModel)| !key_allowed(controller, q.0);
    let n = es.len();
    let mut i: usize = 0;
    while i < n
        invariant
            n == es@.len(),
            i <= n,
            entries_model(es@).len() == n,
            forall|j: int| 0 <= j < n ==> #[trigger] entries_model(es@)[j] == (es@[j].0@, node_model(es@[j].1)),
            p == (|q: (Seq<char>, TomlModel)| !key_allowed(controller, q.0)),
            forall|j: int| 0 <= j < i ==> !p(#[trigger] entries_model(es@)[j]),
        decreases n - i,
    {
        let k = es[i].0.as_str();
        let ok = if controller {
            str_eq(k, "endpoint") || str_eq(k, "id_code") || str_eq(k, "tls") || str_eq(k, "ca") || str_eq(k, "server_name")
        } else {
            str_eq(k, "robot_id") || str_eq(k, "name") || str_eq(k, "controller") || str_eq(k, "env")
        };
        assert(ok == key_allowed(controller, entries_model(es@)[i as int].0));
        if !ok {
            proof {
                lemma_first_index_is(entries_model(es@), p, i as int);
            }
            return Some(i);
        }
        i = i + 1;
    }
    proof {
        lemma_first_index_none(entries_model(es@), p);
    }
    None
}

/// A string field of a table.
fn read_str(es: &Vec<(String, TomlDoc)>, k: &str) -> (r: Result<Option<String>, ConfigError>)
    ensures
        match r {
            Ok(o) => str_field(entries_model(es@), k@) == Ok::<Option<Seq<char>>, ConfigErrorModel>(opt_model(o)),
            Err(e) => str_field(entries_model(es@), k@) == Err::<Option<Seq<char>>, ConfigErrorModel>(e.deep_view()),
        },
{
    proof {
        lemma_entries_model(es@);
    }
    match find_key(es, k) {
        None => {
            Ok(None)
        },
        Some(i) => match &es[i].1 {
            TomlDoc::Str(v) => {
                assert(entries_model(es@)[i as int] == (es@[i as int].0@, node_model(es@[i as int].1)));
                assert(entry_of(entries_model(es@), k@) == Some(TomlModel::Str(v@)));
                Ok(Some(to_owned_string(v.as_str())))
            },
            _ => Err(wrong_type_error(k, "a string")),
        },
    }
}

/// A boolean field of a table.
fn read_bool(es: &Vec<(String, TomlDoc)>, k: &str) -> (r: Result<Option<bool>, ConfigError>)
    ensures
        match r {
            Ok(o) => bool_field(entries_model(es@), k@) == Ok::<Option<bool>, ConfigErrorModel>(o),
            Err(e) => bool_field(entries_model(es@), k@) == Err::<Option<bool>, ConfigErrorModel>(e.deep_view()),
        },
{
    proof {
        lemma_entries_model(es@);
    }
    match find_key(es, k) {
        None => Ok(None),
        Some(i) => match &es[i].1 {
            TomlDoc::Bool(b) => {
                assert(entries_model(es@)[i as int] == (es@[i as int].0@, node_model(es@[i as int].1)));
                assert(entry_of(entries_model(es@), k@) == Some(TomlModel::Bool(*b)));
                Ok(Some(*b))
            },
            _ => Err(wrong_type_error(k, "a boolean")),
        },
    }
}

/// The map of a table of strings.
fn read_strings(es: &Vec<(String, TomlDoc)>) -> (r: Option<StrMap<String>>)
    ensures
        match r {
            Some(m) => (forall|i: int| 0 <= i < es@.len() ==> (#[trigger] entries_model(es@)[i]).1 is Str)
                && m.map() == strings_map(entries_model(es@)),
            None => !forall|i: int| 0 <= i < es@.len() ==> (#[trigger] entries_model(es@)[i]).1 is Str,
        },
{
    proof {
        lemma_entries_model(es@);
    }
    let n = es.len();
    let mut m: StrMap<String> = StrMap::new();
    assert(m.map() =~= Map::<Seq<char>, Seq<char>>::empty());
    let mut i: usize = 0;
    while i < n
        invariant
            n == es@.len(),
            i <= n,
            entries_model(es@).len() == n,
            forall|j: int| 0 <= j < n ==> #[trigger] entries_model(es@)[j] == (es@[j].0@, node_model(es@[j].1)),
            forall|j: int| 0 <= j < i ==> (#[trigger] entries_model(es@)[j]).1 is Str,
            m.map() == strings_map(entries_model(es@).take(i as int)),
        decreases n - i,
    {
        assert(entries_model(es@).take(i + 1).drop_last() =~= entries_model(es@).take(i as int));
        match &es[i].1 {
            TomlDoc::Str(v) => {
                m.insert(es[i].0.clone(), v.clone());
            },
            _ => {
                assert(!(entries_model(es@)[i as int].1 is Str));
                return None;
            },
        }
        i = i + 1;
    }
    assert(entries_model(es@).take(n as int) =~= entries_model(es@));
    Some(m)
}

/// `c` carries the fields `f`, with endpoint `endpoint`.
pub open spec fn carries(c: AgentConfig, f: AgentFields, endpoint: Seq<char>) -> bool {
    &&& c.robot_id@ == f.robot_id
    &&& opt_model(c.name) == f.name
    &&& c.controller.endpoint@ == endpoint
    &&& c.controller.id_code@ == f.id_code
    &&& c.controller.tls == f.tls
    &&& opt_model(c.controller.ca) == f.ca
    &&& opt_model(c.controller.server_name) == f.server_name
    &&& c.env.map() == f.env
}

/// The `[controller]` table of an agent config.
fn read_controller(c: &TomlDoc) -> (r: Result<AgentControllerConfig, ConfigError>)
    ensures
        match controller_fields(node_model(*c)) {
            Ok((ep, ic, tls, ca, sn)) => r matches Ok(cc) && cc.endpoint@ == ep && cc.id_code@ == ic && cc.tls == tls
                && opt_model(cc.ca) == ca && opt_model(cc.server_name) == sn,
            Err(e) => r matches Err(x) && x.deep_view() == e,
        },
{
    match c {
        TomlDoc::Table(es) => {
            proof {
                lemma_entries_model(es@);
            }
            match find_unknown(es, true) {
                Some(i) => {
                    return Err(toml_error3("unknown field `", es[i].0.as_str(), "`"));
                },
                None => {},
            }
            let ep = match read_str(es, "endpoint") {
                Err(e) => {
                    return Err(e);
                },
                Ok(o) => o,
            };
            let ic = match read_str(es, "id_code") {
                Err(e) => {
                    return Err(e);
                },
                Ok(o) => o,
            };
            let tls = match read_bool(es, "tls") {
                Err(e) => {
                    return Err(e);
                },
                Ok(o) => o,
            };
            let ca = match read_str(es, "ca") {
                Err(e) => {
                    return Err(e);
                },
                Ok(o) => o,
            };
            let sn = match read_str(es, "server_name") {
                Err(e) => {
                    return Err(e);
                },
                Ok(o) => o,
            };
            let endpoint = match ep {
                None => {
                    return Err(toml_error3("missing field `", "endpoint", "`"));
                },
                Some(v) => v,
            };
            let id_code = match ic {
                None => {
                    return Err(toml_error3("missing field `", "id_code", "`"));
                },
                Some(v) => v,
            };
            let tls = match tls {
                Some(b) => b,
                None => false,
            };
            Ok(AgentControllerConfig { endpoint, id_code, tls, ca, server_name: sn })
        },
        _ => Err(wrong_type_error("controller", "a table")),
    }
}

/// An agent config document read against its schema (`agent_fields`).
fn read_agent(doc: &TomlDoc) -> (r: Result<AgentConfig, ConfigError>)
    ensures
        match agent_fields(node_model(*doc)) {
            Ok(f) => r matches Ok(c) && carries(c, f, f.endpoint),
            Err(e) => r matches Err(x) && x.deep_view() == e,
        },
{
    match doc {
        TomlDoc::Table(es) => {
            proof {
                lemma_entries_model(es@);
            }
            match find_unknown(es, false) {
                Some(i) => {
                    return Err(toml_error3("unknown field `", es[i].0.as_str(), "`"));
                },
                None => {},
            }
            let id = match read_str(es, "robot_id") {
                Err(e) => {
                    return Err(e);
                },
                Ok(o) => o,
            };
            let name = match read_str(es, "name") {
                Err(e) => {
                    return Err(e);
                },
                Ok(o) => o,
            };
            let controller = match find_key(es, "controller") {
                None => {
                    return Err(toml_error3("missing field `", "controller", "`"));
                },
                Some(i) => match read_controller(&es[i].1) {
                    Err(e) => {
                        return Err(e);
                    },
                    Ok(c) => c,
                },
            };
            let ghost sm = entries_model(es@);
            let env = match find_key(es, "env") {
                None => {
                    let m: StrMap<String> = StrMap::new();
                    assert(m.map() =~= Map::<Seq<char>, Seq<char>>::empty());
                    m
                },
                Some(i) => match &es[i].1 {
                    TomlDoc::Table(vs) => match read_strings(vs) {
                        Some(m) => {
                            proof {
                                lemma_entries_model(vs@);
                            }
                            assert(sm[i as int] == (es@[i as int].0@, node_model(es@[i as int].1)));
                            assert(entry_of(sm, "env"@) == Some(TomlModel::Table(entries_model(vs@))));
                            m
                        },
                        None => {
                            proof {
                                lemma_entries_model(vs@);
                            }
                            assert(sm[i as int] == (es@[i as int].0@, node_model(es@[i as int].1)));
                            assert(entry_of(sm, "env"@) == Some(TomlModel::Table(entries_model(vs@))));
                            return Err(wrong_type_error("env", "a table of strings"));
                        },
                    },
                    _ => {
                        return Err(wrong_type_error("env", "a table of strings"));
                    },
                },
            };
            let robot_id = match id {
                Some(v) => v,
                None => {
                    let v = String::new();
                    assert(v@ =~= Seq::<char>::empty());
                    v
                },
            };
            Ok(AgentConfig { robot_id, name, controller, env })
        },
        _ => Err(wrong_type_error("config", "a table")),
    }
}

/// The agent config of an `extends` chain, base-most file first: the files'
/// documents merged in order (`chain_doc`), read against the schema, with
/// the default port added to an endpoint that names none.
pub fn agent_config_from_chain(docs: Vec<TomlDoc>) -> (r: Result<AgentConfig, ConfigError>)
    ensures
        match agent_fields(chain_doc(docs_model(docs@))) {
            Ok(f) => r matches Ok(c) && carries(c, f, endpoint_with_port(f.endpoint)),
            Err(e) => r matches Err(x) && x.deep_view() == e,
        },
{
    let ghost dm = docs_model(docs@);
    let n = docs.len();
    let doc = if n == 0 {
        let t = TomlDoc::Table(Vec::new());
        assert(node_model(t) == TomlModel::Table(entries_model(Seq::empty())));
        assert(entries_model(Seq::<(String, TomlDoc)>::empty()) =~= Seq::<(Seq<char>, TomlModel)>::empty());
        t
    } else {
        let mut acc = clone_node(&docs[0]);
        let mut j: usize = 1;
        assert(dm.take(1) =~= seq![dm[0]]);
        while j < n
            invariant
                n == docs@.len(),
                1 <= j <= n,
                dm == docs_model(docs@),
                node_model(acc) == chain_doc(dm.take(j as int)),
            decreases n - j,
        {
            acc = merge_toml(acc, &docs[j]);
            assert(dm.take(j + 1).drop_last() =~= dm.take(j as int));
            assert(dm.take(j + 1).last() == node_model(docs@[j as int]));
            j = j + 1;
        }
        assert(dm.take(n as int) =~= dm);
        acc
    };
    match read_agent(&doc) {
        Err(e) => Err(e),
        Ok(mut c) => {
            c.controller.apply_default_port();
            Ok(c)
        },
    }
}

/// An agent config being loaded along its `extends` chain, one file at a
/// time from the file asked for: the files entered so far (by canonical
/// path) and their documents, the extending file first.
pub struct ExtendsChain {
    pub seen: Vec<String>,
    pub docs: Vec<TomlDoc>,
}

/// What loading a chain needs next.
#[derive(Debug)]
pub enum ChainNext {
    /// The text of the file at this path, relative to the file taken last.
    Load(String),
    /// The chain ended: the agent config it makes, or why it makes none.
    Finished(Result<AgentConfig, ConfigError>),
}

/// `r` is what a chain whose documents are `docs` (base-most first) makes.
pub open spec fn finished_with(r: ChainNext, docs: Seq<TomlModel>) -> bool {
    match agent_fields(chain_doc(docs)) {
        Ok(f) => r matches ChainNext::Finished(Ok(c)) && carries(c, f, endpoint_with_port(f.endpoint)),
        Err(e) => r matches ChainNext::Finished(Err(x)) && x.deep_view() == e,
    }
}

impl ExtendsChain {
    pub fn new() -> (r: Self)
        ensures
            r.seen@.len() == 0,
            r.docs@.len() == 0,
    {
        ExtendsChain { seen: Vec::new(), docs: Vec::new() }
    }

    /// Enters the file at canonical path `canon`: refused as a cycle when
    /// the chain met that file before.
    pub fn enter(&mut self, canon: &str) -> (r: Result<(), ConfigError>)
        ensures
            final(self).docs == old(self).docs,
            if old(self).seen.deep_view().contains(canon@) {
                &&& r matches Err(e) && e.deep_view() == (ConfigErrorModel::ConfigCycle { path: canon@ })
                &&& final(self).seen.deep_view() == old(self).seen.deep_view()
            } else {
                &&& r is Ok
                &&& final(self).seen.deep_view() == old(self).seen.deep_view().push(canon@)
            },
    {
        if list_contains(self.seen.as_slice(), canon) {
            return Err(ConfigError::ConfigCycle { path: to_owned_string(canon) });
        }
        let ghost s0 = self.seen.deep_view();
        self.seen.push(to_owned_string(canon));
        assert(self.seen.deep_view() =~= s0.push(canon@));
        Ok(())
    }

    /// Takes in the text of the file entered last. A file that extends
    /// another asks for it next; one that extends nothing ends the chain,
    /// whose files are merged from the base-most one on and read against
    /// the agent config schema.
    pub fn take_text(&mut self, text: &str) -> (r: ChainNext)
        ensures
            final(self).seen == old(self).seen,
            match toml_doc(text@) {
                Err(msg) => r matches ChainNext::Finished(Err(e)) && e.deep_view() == ConfigErrorModel::Toml(msg),
                Ok(d) => match extends_of(d) {
                    Some((p, o)) => {
                        &&& r matches ChainNext::Load(rp) && rp@ == p
                        &&& docs_model(final(self).docs@) == docs_model(old(self).docs@).push(o)
                    },
                    None => {
                        &&& finished_with(r, docs_model(old(self).docs@).push(d).reverse())
                        &&& final(self).docs@.len() == 0
                    },
                },
            },
    {
        let doc = match parse_config_text(text) {
            Ok(d) => d,
            Err(e) => {
                return ChainNext::Finished(Err(e));
            },
        };
        let ghost d0 = docs_model(self.docs@);
        match split_extends(doc) {
            ExtendsStep::Base { rel_path, over } => {
                let ghost om = node_model(over);
                self.docs.push(over);
                assert(docs_model(self.docs@) =~= d0.push(om));
                ChainNext::Load(rel_path)
            },
            ExtendsStep::Done(d) => {
                let ghost dmod = node_model(d);
                let mut docs: Vec<TomlDoc> = Vec::new();
                std::mem::swap(&mut docs, &mut self.docs);
                docs.push(d);
                let ghost all = d0.push(dmod);
                assert(docs_model(docs@) =~= all);
                let n = docs.len();
                let mut base_first: Vec<TomlDoc> = Vec::new();
                assert(docs_model(base_first@) =~= all.reverse().take(0));
                while docs.len() > 0
                    invariant
                        n == all.len(),
                        docs@.len() <= n,
                        docs_model(docs@) == all.take(docs@.len() as int),
                        docs_model(base_first@) == all.reverse().take(n - docs@.len()),
                    decreases docs@.len(),
                {
                    let ghost k = docs@.len();
                    let ghost before = base_first@;
                    let last = docs.pop().unwrap();
                    assert(node_model(last) == all[k - 1]) by {
                        assert(all.take(k as int)[k - 1] == all[k - 1]);
                        assert(docs_model(docs@.push(last))[k - 1] == node_model(last));
                    }
                    assert(docs_model(docs@) =~= all.take(k - 1));
                    base_first.push(last);
                    assert(docs_model(base_first@) =~= all.reverse().take(n - (k - 1))) by {
                        assert(docs_model(base_first@) =~= docs_model(before).push(node_model(last)));
                    }
                }
                assert(all.reverse().take(n as int) =~= all.reverse());
                ChainNext::Finished(agent_config_from_chain(base_first))
            },
        }
    }
}

} // verus!
