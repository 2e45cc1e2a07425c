//! Parsed configuration documents (JSON, TOML or YAML), as plain values, and
//! the lookups that the client adapters make in them.

use vstd::prelude::*;

use crate::assoc::{assoc_insert, insert, keys_sorted, lemma_insert_entries, lemma_insert_sorted};
use crate::text::{lemma_text_order, owned, text_eq, text_less, text_lt, trim, trim_spec};

verus! {

/// A configuration value. Tables keep their entries in the order the parser
/// walks them; a key that is not text is `None`. Dates and other scalars
/// that have no JSON form are `Other`.
#[derive(Debug, Default)]
pub enum ConfigValue {
    #[default]
    Null,
    Bool(bool),
    /// A number, as the parser writes it.
    Number(String),
    Str(String),
    List(Vec<ConfigValue>),
    Table(Vec<(Option<String>, ConfigValue)>),
    Other,
}

/// The value behind an optional reference.
pub open spec fn deref_opt(o: Option<&ConfigValue>) -> Option<ConfigValue> {
    match o {
        Some(x) => Some(*x),
        None => None,
    }
}

/// Whether a table key is the text `key`.
pub open spec fn key_is(k: Option<String>, key: Seq<char>) -> bool {
    match k {
        Some(s) => s@ == key,
        None => false,
    }
}

/// Whether `v` is the text `t`.
pub open spec fn is_text(v: ConfigValue, t: Seq<char>) -> bool {
    v matches ConfigValue::Str(s) && s@ == t
}

/// Whether `v` is the number written `n`.
pub open spec fn is_number(v: ConfigValue, n: Seq<char>) -> bool {
    v matches ConfigValue::Number(s) && s@ == n
}

/// Whether `v` is the empty table.
pub open spec fn is_empty_table(v: ConfigValue) -> bool {
    v matches ConfigValue::Table(es) && es@.len() == 0
}

/// Whether table entry `e` maps the text key `k` to a value that `p` accepts.
pub open spec fn is_entry(e: (Option<String>, ConfigValue), k: Seq<char>, p: spec_fn(ConfigValue) -> bool) -> bool {
    key_is(e.0, k) && p(e.1)
}

/// The value of the first entry whose key is `key`.
pub open spec fn entry_lookup(es: Seq<(Option<String>, ConfigValue)>, key: Seq<char>) -> Option<
    ConfigValue,
>
    decreases es.len(),
{
    if es.len() == 0 {
        None
    } else if key_is(es[0].0, key) {
        Some(es[0].1)
    } else {
        entry_lookup(es.drop_first(), key)
    }
}

/// The field `key` of a table; nothing for any other value.
pub open spec fn lookup_field(v: ConfigValue, key: Seq<char>) -> Option<ConfigValue> {
    match v {
        ConfigValue::Table(es) => entry_lookup(es@, key),
        _ => None,
    }
}

/// The text held by an optional value.
pub open spec fn text_of(v: Option<ConfigValue>) -> Option<Seq<char>> {
    match v {
        Some(ConfigValue::Str(s)) => Some(s@),
        _ => None,
    }
}

/// The boolean held by an optional value.
pub open spec fn flag_of(v: Option<ConfigValue>) -> Option<bool> {
    match v {
        Some(ConfigValue::Bool(b)) => Some(b),
        _ => None,
    }
}

/// The texts among `items`, in order; other items are skipped.
pub open spec fn texts_in(items: Seq<ConfigValue>) -> Seq<Seq<char>>
    decreases items.len(),
{
    if items.len() == 0 {
        Seq::empty()
    } else {
        let rest = texts_in(items.drop_last());
        match items.last() {
            ConfigValue::Str(s) => rest.push(s@),
            _ => rest,
        }
    }
}

/// The texts of a list value; nothing for any other value.
pub open spec fn text_list(v: Option<ConfigValue>) -> Seq<Seq<char>> {
    match v {
        Some(ConfigValue::List(items)) => texts_in(items@),
        _ => Seq::empty(),
    }
}

/// Whether an optional value is a list with at least one item.
pub open spec fn nonempty_list(v: Option<ConfigValue>) -> bool {
    match v {
        Some(ConfigValue::List(items)) => items@.len() > 0,
        _ => false,
    }
}

/// The entries of a table value.
pub open spec fn table_entries(v: Option<ConfigValue>) -> Option<Seq<(Option<String>, ConfigValue)>> {
    match v {
        Some(ConfigValue::Table(es)) => Some(es@),
        _ => None,
    }
}

/// `r` with `x` placed after every text that does not sort after it.
pub open spec fn insert_sorted(r: Seq<Seq<char>>, x: Seq<char>) -> Seq<Seq<char>>
    decreases r.len(),
{
    if r.len() == 0 {
        seq![x]
    } else if text_lt(x, r[0]) {
        seq![x] + r
    } else {
        seq![r[0]] + insert_sorted(r.drop_first(), x)
    }
}

/// `s` in std's string order.
pub open spec fn sort_texts(s: Seq<Seq<char>>) -> Seq<Seq<char>>
    decreases s.len(),
{
    if s.len() == 0 {
        Seq::empty()
    } else {
        insert_sorted(sort_texts(s.drop_last()), s.last())
    }
}

/// No text of `s` sorts before an earlier one.
pub open spec fn texts_sorted(s: Seq<Seq<char>>) -> bool {
    forall|i: int, j: int| 0 <= i < j < s.len() ==> !text_lt(#[trigger] s[j], #[trigger] s[i])
}

/// The text keys of a table's entries, in entry order.
pub open spec fn entry_keys(es: Seq<(Option<String>, ConfigValue)>) -> Seq<Seq<char>>
    decreases es.len(),
{
    if es.len() == 0 {
        Seq::empty()
    } else {
        let rest = entry_keys(es.drop_last());
        match es.last().0 {
            Some(k) => rest.push(k@),
            None => rest,
        }
    }
}

/// The (key, text) pairs of a table, as a key-ordered map in which a later
/// entry replaces an earlier one with the same key.
pub open spec fn entry_texts(es: Seq<(Option<String>, ConfigValue)>) -> Seq<(Seq<char>, Seq<char>)>
    decreases es.len(),
{
    if es.len() == 0 {
        Seq::empty()
    } else {
        let rest = entry_texts(es.drop_last());
        match (es.last().0, es.last().1) {
            (Some(k), ConfigValue::Str(s)) => assoc_insert(rest, k@, s@),
            _ => rest,
        }
    }
}

/// The environment a server entry declares: every text key in sorted order,
/// and the keys whose value is text, with those values.
pub open spec fn env_spec(v: Option<ConfigValue>) -> (Seq<Seq<char>>, Seq<(Seq<char>, Seq<char>)>) {
    match v {
        Some(ConfigValue::Table(es)) => (sort_texts(entry_keys(es@)), entry_texts(es@)),
        _ => (Seq::empty(), Seq::empty()),
    }
}

/// `insert_sorted` puts `x` at the first position holding a text that sorts after it.
proof fn lemma_insert_sorted_at(r: Seq<Seq<char>>, x: Seq<char>, p: int)
    requires
        0 <= p <= r.len(),
        forall|j: int| 0 <= j < p ==> !text_lt(x, #[trigger] r[j]),
        p < r.len() ==> text_lt(x, r[p]),
    ensures
        insert_sorted(r, x) == r.insert(p, x),
    decreases p,
{
    if p == 0 {
        if r.len() > 0 {
            assert(r.insert(0, x) =~= seq![x] + r);
        } else {
            assert(r.insert(0, x) =~= seq![x]);
        }
    } else {
        let t = r.drop_first();
        assert forall|j: int| 0 <= j < p - 1 implies !text_lt(x, #[trigger] t[j]) by {
            assert(t[j] == r[j + 1]);
        }
        lemma_insert_sorted_at(t, x, p - 1);
        assert(r.insert(p, x) =~= seq![r[0]] + t.insert(p - 1, x));
    }
}

/// Law: sorting keeps every text and leaves them in order.
pub proof fn lemma_sort_texts(s: Seq<Seq<char>>)
    ensures
        texts_sorted(sort_texts(s)),
        sort_texts(s).to_multiset() == s.to_multiset(),
    decreases s.len(),
{
    broadcast use vstd::seq_lib::to_multiset_build, vstd::seq_lib::to_multiset_insert;

    if s.len() == 0 {
        assert(s =~= Seq::<Seq<char>>::empty());
    } else {
        let r = sort_texts(s.drop_last());
        let x = s.last();
        lemma_sort_texts(s.drop_last());
        let p = first_after(r, x);
        lemma_first_after(r, x);
        lemma_insert_sorted_at(r, x, p);
        let q = r.insert(p, x);
        assert forall|i: int, j: int| 0 <= i < j < q.len() implies !text_lt(
            #[trigger] q[j],
            #[trigger] q[i],
        ) by {
            if i < p && j == p {
                lemma_text_order(x, r[i], x);
            } else if i == p && j > p {
                let a = r[p];
                let b = r[j - 1];
                lemma_text_order(x, a, b);
                lemma_text_order(a, b, x);
                lemma_text_order(x, b, a);
            } else if i < p && j > p {
                assert(q[i] == r[i]);
                assert(q[j] == r[j - 1]);
            } else if j < p {
                assert(q[i] == r[i]);
                assert(q[j] == r[j]);
            } else {
                assert(q[i] == r[i - 1]);
                assert(q[j] == r[j - 1]);
            }
        }
        assert(s =~= s.drop_last().push(x));
    }
}

/// The first position of `r` holding a text that sorts after `x` (or the end).
spec fn first_after(r: Seq<Seq<char>>, x: Seq<char>) -> int
    decreases r.len(),
{
    if r.len() == 0 {
        0
    } else if text_lt(x, r[0]) {
        0
    } else {
        1 + first_after(r.drop_first(), x)
    }
}

proof fn lemma_first_after(r: Seq<Seq<char>>, x: Seq<char>)
    ensures
        0 <= first_after(r, x) <= r.len(),
        forall|j: int| 0 <= j < first_after(r, x) ==> !text_lt(x, #[trigger] r[j]),
        first_after(r, x) < r.len() ==> text_lt(x, r[first_after(r, x)]),
    decreases r.len(),
{
    if r.len() > 0 && !text_lt(x, r[0]) {
        lemma_first_after(r.drop_first(), x);
        let t = r.drop_first();
        assert forall|j: int| 0 <= j < first_after(r, x) implies !text_lt(x, #[trigger] r[j]) by {
            if j > 0 {
                assert(r[j] == t[j - 1]);
            }
        }
    }
}

/// Every key of a table's text entries is one of its text keys.
proof fn lemma_entry_texts_keys(es: Seq<(Option<String>, ConfigValue)>, j: int)
    requires
        0 <= j < entry_texts(es).len(),
    ensures
        entry_keys(es).contains(entry_texts(es)[j].0),
    decreases es.len(),
{
    let d = es.drop_last();
    let rest = entry_texts(d);
    match (es.last().0, es.last().1) {
        (Some(k), ConfigValue::Str(t)) => {
            lemma_insert_entries(rest, k@, t@);
            let x = entry_texts(es)[j].0;
            if entry_texts(es)[j] == (k@, t@) {
                assert(entry_keys(es)[entry_keys(es).len() - 1] == k@);
            } else {
                let i = choose|i: int| 0 <= i < rest.len() && rest[i] == entry_texts(es)[j];
                lemma_entry_texts_keys(d, i);
                let m = choose|m: int| 0 <= m < entry_keys(d).len() && entry_keys(d)[m] == x;
                assert(entry_keys(es)[m] == x);
            }
        },
        _ => {
            lemma_entry_texts_keys(d, j);
            let x = entry_texts(es)[j].0;
            let m = choose|m: int| 0 <= m < entry_keys(d).len() && entry_keys(d)[m] == x;
            assert(entry_keys(es)[m] == x);
        },
    }
}

/// Text entries of a table are kept in strictly increasing key order.
proof fn lemma_entry_texts_sorted(es: Seq<(Option<String>, ConfigValue)>)
    ensures
        keys_sorted(entry_texts(es)),
    decreases es.len(),
{
    if es.len() > 0 {
        lemma_entry_texts_sorted(es.drop_last());
        match (es.last().0, es.last().1) {
            (Some(k), ConfigValue::Str(t)) => {
                lemma_insert_sorted(entry_texts(es.drop_last()), k@, t@);
            },
            _ => {},
        }
    }
}

/// Law: the environment of a server entry is consistent: its keys are sorted, its
/// values are keyed in strictly increasing order, and every value belongs to
/// one of its keys.
pub proof fn lemma_env_consistent(v: Option<ConfigValue>)
    ensures
        texts_sorted(env_spec(v).0),
        keys_sorted(env_spec(v).1),
        forall|j: int| 0 <= j < env_spec(v).1.len() ==> env_spec(v).0.contains(#[trigger] env_spec(v).1[j].0),
{
    broadcast use vstd::seq_lib::to_multiset_contains;

    match v {
        Some(ConfigValue::Table(es)) => {
            let keys = entry_keys(es@);
            lemma_sort_texts(keys);
            lemma_entry_texts_sorted(es@);
            assert forall|j: int| 0 <= j < env_spec(v).1.len() implies env_spec(v).0.contains(
                #[trigger] env_spec(v).1[j].0,
            ) by {
                lemma_entry_texts_keys(es@, j);
                let x = env_spec(v).1[j].0;
                assert(keys.to_multiset().count(x) > 0);
                assert(sort_texts(keys).to_multiset().count(x) > 0);
            }
        },
        _ => {},
    }
}

/// The field `key` of `v`, when `v` is a table that has one.
pub fn get_field<'a>(v: &'a ConfigValue, key: &str) -> (r: Option<&'a ConfigValue>)
    ensures
        deref_opt(r) == lookup_field(*v, key@),
{
    match v {
        ConfigValue::Table(es) => {
            let n = es.len();
            assert(es@.skip(0) =~= es@);
            for i in 0..n
                invariant
                    n == es@.len(),
                    lookup_field(*v, key@) == entry_lookup(es@, key@),
                    entry_lookup(es@, key@) == entry_lookup(es@.skip(i as int), key@),
            {
                assert(es@.skip(i as int)[0] == es@[i as int]);
                assert(es@.skip(i as int).drop_first() =~= es@.skip(i + 1));
                match &es[i].0 {
                    Some(k) => {
                        if text_eq(k.as_str(), key) {
                            assert(key_is(es@.skip(i as int)[0].0, key@));
                            assert(entry_lookup(es@.skip(i as int), key@) == Some(es@[i as int].1));
                            return Some(&es[i].1);
                        }
                    },
                    None => {},
                }
            }
            assert(es@.skip(n as int) =~= Seq::<(Option<String>, ConfigValue)>::empty());
            None
        },
        _ => None,
    }
}

/// The field `key` of `v`, moved out of it (see [`lookup_field`]).
pub fn take_field(v: ConfigValue, key: &str) -> (r: Option<ConfigValue>)
    ensures
        r == lookup_field(v, key@),
{
    let ghost orig = v;
    match v {
        ConfigValue::Table(es) => {
            let ghost all = es@;
            let mut es = es;
            let n = es.len();
            let mut i: usize = 0;
            assert(all.skip(0) =~= all);
            while i < n
                invariant
                    n == all.len(),
                    es@ == all,
                    lookup_field(orig, key@) == entry_lookup(all, key@),
                    orig == v,
                    i <= n,
                    entry_lookup(all, key@) == entry_lookup(all.skip(i as int), key@),
                decreases n - i,
            {
                assert(all.skip(i as int)[0] == all[i as int]);
                assert(all.skip(i as int).drop_first() =~= all.skip(i + 1));
                let hit = match &es[i].0 {
                    Some(k) => text_eq(k.as_str(), key),
                    None => false,
                };
                if hit {
                    assert(key_is(all.skip(i as int)[0].0, key@));
                    assert(entry_lookup(all.skip(i as int), key@) == Some(all[i as int].1));
                    let entry = es.remove(i);
                    assert(entry == all[i as int]);

                    return Some(entry.1);
                }
                i = i + 1;
            }
            assert(all.skip(n as int) =~= Seq::<(Option<String>, ConfigValue)>::empty());
            None
        },
        _ => None,
    }
}

/// The text held by `v`, if it holds text.
pub fn get_text(v: Option<&ConfigValue>) -> (r: Option<String>)
    ensures
        r.deep_view() == text_of(deref_opt(v)),
{
    match v {
        Some(ConfigValue::Str(s)) => Some(owned(s.as_str())),
        _ => None,
    }
}

/// The boolean held by `v`, if it holds one.
pub fn get_flag(v: Option<&ConfigValue>) -> (r: Option<bool>)
    ensures
        r == flag_of(deref_opt(v)),
{
    match v {
        Some(ConfigValue::Bool(b)) => Some(*b),
        _ => None,
    }
}

/// The texts of `v` when it is a list (others skipped); empty otherwise.
pub fn get_text_list(v: Option<&ConfigValue>) -> (r: Vec<String>)
    ensures
        r.deep_view() == text_list(deref_opt(v)),
{
    let mut out: Vec<String> = Vec::new();
    match v {
        Some(ConfigValue::List(items)) => {
            let n = items.len();
            for i in 0..n
                invariant
                    n == items@.len(),
                    out.deep_view() == texts_in(items@.take(i as int)),
            {
                assert(items@.take(i + 1).drop_last() =~= items@.take(i as int));
                match &items[i] {
                    ConfigValue::Str(s) => {
                        out.push(owned(s.as_str()));
                    },
                    _ => {},
                }
                assert(out.deep_view() =~= texts_in(items@.take(i + 1)));
            }
            assert(items@.take(n as int) =~= items@);
        },
        _ => {},
    }
    out
}

/// Whether `v` is a list with at least one item.
pub fn is_nonempty_list(v: Option<&ConfigValue>) -> (r: bool)
    ensures
        r == nonempty_list(deref_opt(v)),
{
    match v {
        Some(ConfigValue::List(items)) => items.len() > 0,
        _ => false,
    }
}

/// Places `x` into the sorted `r`, after every text that does not sort after it.
fn insert_text_sorted(r: &mut Vec<String>, x: String)
    ensures
        final(r).deep_view() == insert_sorted(old(r).deep_view(), x@),
{
    let ghost s = r.deep_view();
    let n = r.len();
    let mut p: usize = 0;
    while p < n
        invariant
            n == r.len(),
            s == r.deep_view(),
            p <= n,
            forall|j: int| 0 <= j < p ==> !text_lt(x@, #[trigger] s[j]),
        ensures
            p < n ==> text_lt(x@, s[p as int]),
        decreases n - p,
    {
        if text_less(x.as_str(), r[p].as_str()) {
            break;
        }
        p = p + 1;
    }
    proof {
        lemma_insert_sorted_at(s, x@, p as int);
    }
    let ghost xv = x@;
    r.insert(p, x);
    assert(r.deep_view() =~= s.insert(p as int, xv));
}

/// The texts of `v`, sorted in std's string order.
pub fn sorted_texts(v: Vec<String>) -> (r: Vec<String>)
    ensures
        r.deep_view() == sort_texts(v.deep_view()),
{
    let mut r: Vec<String> = Vec::new();
    let ghost s = v.deep_view();
    let n = v.len();
    let mut i: usize = 0;
    while i < n
        invariant
            n == s.len(),
            v.deep_view() == s,
            i <= n,
            r.deep_view() == sort_texts(s.take(i as int)),
        decreases n - i,
    {
        assert(s.take(i + 1).drop_last() =~= s.take(i as int));
        let x = owned(v[i].as_str());
        insert_text_sorted(&mut r, x);
        i = i + 1;
    }
    assert(s.take(n as int) =~= s);
    r
}

/// The environment a server entry declares (see [`env_spec`]).
pub fn env_of(v: Option<&ConfigValue>) -> (r: (Vec<String>, Vec<(String, String)>))
    ensures
        (r.0.deep_view(), r.1.deep_view()) == env_spec(deref_opt(v)),
        keys_sorted(r.1.deep_view()),
{
    let mut keys: Vec<String> = Vec::new();
    let mut values: Vec<(String, String)> = Vec::new();
    match v {
        Some(ConfigValue::Table(es)) => {
            let n = es.len();
            for i in 0..n
                invariant
                    n == es@.len(),
                    keys.deep_view() == entry_keys(es@.take(i as int)),
                    values.deep_view() == entry_texts(es@.take(i as int)),
                    keys_sorted(values.deep_view()),
            {
                assert(es@.take(i + 1).drop_last() =~= es@.take(i as int));
                assert(es@.take(i + 1).last() == es@[i as int]);
                match &es[i].0 {
                    Some(k) => {
                        keys.push(owned(k.as_str()));
                        match &es[i].1 {
                            ConfigValue::Str(s) => {
                                insert(&mut values, owned(k.as_str()), owned(s.as_str()));
                            },
                            _ => {},
                        }
                    },
                    None => {},
                }
                assert(keys.deep_view() =~= entry_keys(es@.take(i + 1)));
            }
            assert(es@.take(n as int) =~= es@);
            let sorted = sorted_texts(keys);
            (sorted, values)
        },
        _ => (keys, values),
    }
}


// ---------------------------------------------------------------------------
// Parsing config text
// ---------------------------------------------------------------------------

/// serde_json's value type, read only by the conversion below.
#[verifier::external_type_specification]
#[verifier::external_body]
pub struct ExJsonValue(serde_json::Value);

/// toml's value type, read only by the conversion below.
#[verifier::external_type_specification]
#[verifier::external_body]
pub struct ExTomlValue(toml::Value);

/// serde_yaml's value type, read only by the conversion below.
#[verifier::external_type_specification]
#[verifier::external_body]
pub struct ExYamlValue(serde_yaml::Value);

/// What `serde_json::from_str::<serde_json::Value>` makes of `text`, as a
/// `ConfigValue`, or its error message.
pub uninterp spec fn json_document(text: Seq<char>) -> Result<ConfigValue, Seq<char>>;

/// What `toml::from_str::<toml::Value>` makes of `text`, as a `ConfigValue`,
/// or its error message.
pub uninterp spec fn toml_document(text: Seq<char>) -> Result<ConfigValue, Seq<char>>;

/// What `serde_yaml::from_str::<serde_yaml::Value>` makes of `text`, as a
/// `ConfigValue`, or its error message.
pub uninterp spec fn yaml_document(text: Seq<char>) -> Result<ConfigValue, Seq<char>>;

/// Whether `r` is the parse result `d`, the error taken as its text.
pub open spec fn parsed_as(r: Result<ConfigValue, String>, d: Result<ConfigValue, Seq<char>>) -> bool {
    match r {
        Ok(v) => d == Ok::<ConfigValue, Seq<char>>(v),
        Err(e) => d == Err::<ConfigValue, Seq<char>>(e@),
    }
}

/// A serde_json value as a `ConfigValue`, variant for variant; object keys in
/// the map's order.
#[verifier::external_body]
fn json_to_config(v: &serde_json::Value) -> ConfigValue {
    match v {
        serde_json::Value::Null => ConfigValue::Null,
        serde_json::Value::Bool(b) => ConfigValue::Bool(*b),
        serde_json::Value::Number(n) => ConfigValue::Number(n.to_string()),
        serde_json::Value::String(s) => ConfigValue::Str(s.clone()),
        serde_json::Value::Array(items) => ConfigValue::List(items.iter().map(json_to_config).collect()),
        serde_json::Value::Object(map) => ConfigValue::Table(
            map.iter().map(|(k, v)| (Some(k.clone()), json_to_config(v))).collect(),
        ),
    }
}

/// A toml value as a `ConfigValue`, variant for variant; a date has no JSON
/// form and becomes `Other`.
#[verifier::external_body]
fn toml_to_config(v: &toml::Value) -> ConfigValue {
    match v {
        toml::Value::String(s) => ConfigValue::Str(s.clone()),
        toml::Value::Integer(i) => ConfigValue::Number(i.to_string()),
        toml::Value::Float(x) => ConfigValue::Number(x.to_string()),
        toml::Value::Boolean(b) => ConfigValue::Bool(*b),
        toml::Value::Datetime(_) => ConfigValue::Other,
        toml::Value::Array(items) => ConfigValue::List(items.iter().map(toml_to_config).collect()),
        toml::Value::Table(map) => ConfigValue::Table(
            map.iter().map(|(k, v)| (Some(k.clone()), toml_to_config(v))).collect(),
        ),
    }
}

/// A serde_yaml value as a `ConfigValue`, variant for variant; a tagged value
/// becomes its value, and a mapping key that is not a string becomes `None`.
#[verifier::external_body]
fn yaml_to_config(v: &serde_yaml::Value) -> ConfigValue {
    match v {
        serde_yaml::Value::Null => ConfigValue::Null,
        serde_yaml::Value::Bool(b) => ConfigValue::Bool(*b),
        serde_yaml::Value::Number(n) => ConfigValue::Number(n.to_string()),
        serde_yaml::Value::String(s) => ConfigValue::Str(s.clone()),
        serde_yaml::Value::Sequence(items) => ConfigValue::List(items.iter().map(yaml_to_config).collect()),
        serde_yaml::Value::Mapping(map) => ConfigValue::Table(
            map.iter().map(|(k, v)| (k.as_str().map(str::to_owned), yaml_to_config(v))).collect(),
        ),
        serde_yaml::Value::Tagged(tagged) => yaml_to_config(&tagged.value),
    }
}

/// Calls `serde_json::from_str::<serde_json::Value>` on `text`; the result,
/// converted, or the error's `Display` text, is named.
#[verifier::external_body]
pub(crate) fn parse_json_text(text: &str) -> (r: Result<ConfigValue, String>)
    ensures
        parsed_as(r, json_document(text@)),
{
    match serde_json::from_str::<serde_json::Value>(text) {
        Ok(v) => Ok(json_to_config(&v)),
        Err(e) => Err(e.to_string()),
    }
}

/// Calls `toml::from_str::<toml::Value>` on `text`; the result, converted, or
/// the error's `Display` text, is named.
#[verifier::external_body]
pub(crate) fn parse_toml_text(text: &str) -> (r: Result<ConfigValue, String>)
    ensures
        parsed_as(r, toml_document(text@)),
{
    match toml::from_str::<toml::Value>(text) {
        Ok(v) => Ok(toml_to_config(&v)),
        Err(e) => Err(e.to_string()),
    }
}

/// Calls `serde_yaml::from_str::<serde_yaml::Value>` on `text`; the result,
/// converted, or the error's `Display` text, is named.
#[verifier::external_body]
pub(crate) fn parse_yaml_text(text: &str) -> (r: Result<ConfigValue, String>)
    ensures
        parsed_as(r, yaml_document(text@)),
{
    match serde_yaml::from_str::<serde_yaml::Value>(text) {
        Ok(v) => Ok(yaml_to_config(&v)),
        Err(e) => Err(e.to_string()),
    }
}

/// The formats that config files are written in.
#[derive(Debug, Clone, Copy, PartialEq, Eq, Structural)]
pub enum ConfigFormat {
    Json,
    Toml,
    Yaml,
}

/// What parsing `text` in `format` gives.
pub open spec fn document(format: ConfigFormat, text: Seq<char>) -> Result<ConfigValue, Seq<char>> {
    match format {
        ConfigFormat::Json => json_document(text),
        ConfigFormat::Toml => toml_document(text),
        ConfigFormat::Yaml => yaml_document(text),
    }
}

/// Parses `text` in `format`: the document, or the parser's message.
pub fn parse_document(format: ConfigFormat, text: &str) -> (r: Result<ConfigValue, String>)
    ensures
        parsed_as(r, document(format, text@)),
{
    match format {
        ConfigFormat::Json => parse_json_text(text),
        ConfigFormat::Toml => parse_toml_text(text),
        ConfigFormat::Yaml => parse_yaml_text(text),
    }
}

/// One line of a line-delimited JSON stream: nothing for a blank line, else
/// the parse of the line without its surrounding white space.
pub fn json_line(line: &str) -> (r: Option<Result<ConfigValue, String>>)
    ensures
        trim_spec(line@).len() == 0 ==> r is None,
        trim_spec(line@).len() > 0 ==> (r matches Some(p) && parsed_as(p, json_document(trim_spec(line@)))),
{
    let t = trim(line);
    if t.as_str().is_empty() {
        None
    } else {
        Some(parse_json_text(t.as_str()))
    }
}

} // verus!
