//! The insertion-ordered maps and sets of `indexmap` that the registry keeps,
//! seen as sequences of entries in insertion order.
use crate::parse::registry::{CommandModel, EnumModel, TypeModel, VkCommand, VkEnum, VkType};
use crate::text::{contains};
use indexmap::{IndexMap, IndexSet};
use vstd::prelude::*;

verus! {

/// The map type of `indexmap`, `IndexMap`, made known to the verifier; its
/// contents are seen only through the named entries of each map type below.
#[verifier::external_type_specification]
#[verifier::external_body]
#[verifier::reject_recursive_types(K)]
#[verifier::reject_recursive_types(V)]
#[verifier::reject_recursive_types(S)]
pub struct ExIndexMap<K, V, S>(IndexMap<K, V, S>);

/// The set type of `indexmap`, `IndexSet`, made known to the verifier; its
/// contents are seen only through [`string_set_entries`].
#[verifier::external_type_specification]
#[verifier::external_body]
#[verifier::reject_recursive_types(T)]
#[verifier::reject_recursive_types(S)]
pub struct ExIndexSet<T, S>(IndexSet<T, S>);

/// The first index at or after `i` whose key is `key`.
pub open spec fn key_index_from<V>(e: Seq<(Seq<char>, V)>, key: Seq<char>, i: int) -> Option<int>
    decreases e.len() - i,
{
    if i < 0 || i >= e.len() {
        None
    } else if e[i].0 == key {
        Some(i)
    } else {
        key_index_from(e, key, i + 1)
    }
}

/// The index of the entry with key `key`.
pub open spec fn key_index<V>(e: Seq<(Seq<char>, V)>, key: Seq<char>) -> Option<int> {
    key_index_from(e, key, 0)
}

/// The value stored under `key`.
pub open spec fn entries_get<V>(e: Seq<(Seq<char>, V)>, key: Seq<char>) -> Option<V> {
    match key_index(e, key) {
        Some(i) => Some(e[i].1),
        None => None,
    }
}

/// The entries after inserting `v` under `key`: an existing key keeps its
/// place and takes the new value; a new key goes last.
pub open spec fn entries_insert<V>(e: Seq<(Seq<char>, V)>, key: Seq<char>, v: V) -> Seq<(Seq<char>, V)> {
    match key_index(e, key) {
        Some(i) => e.update(i, (key, v)),
        None => e.push((key, v)),
    }
}

/// Keys and struct names of the structure-type table, without the used flags.
pub open spec fn stype_names(e: Seq<(Seq<char>, (Seq<char>, bool))>) -> Seq<(Seq<char>, Seq<char>)> {
    e.map_values(|p: (Seq<char>, (Seq<char>, bool))| (p.0, p.1.0))
}

/// Dropping the flags keeps every key at its index.
pub proof fn lemma_stype_names_index(e: Seq<(Seq<char>, (Seq<char>, bool))>, key: Seq<char>, i: int)
    requires
        0 <= i,
    ensures
        key_index_from(stype_names(e), key, i) == key_index_from(e, key, i),
    decreases e.len() - i,
{
    if i < e.len() && e[i].0 != key {
        lemma_stype_names_index(e, key, i + 1);
    }
}

/// The elements of a set after inserting `x`: new elements go last.
pub open spec fn set_insert(e: Seq<Seq<char>>, x: Seq<char>) -> Seq<Seq<char>> {
    if e.contains(x) {
        e
    } else {
        e.push(x)
    }
}

/// A found key lies inside the entries and holds that key; no earlier entry does.
pub proof fn lemma_key_index<V>(e: Seq<(Seq<char>, V)>, key: Seq<char>, i: int)
    requires
        0 <= i,
    ensures
        key_index_from(e, key, i) matches Some(j) ==> i <= j < e.len() && e[j].0 == key
            && forall|k: int| i <= k < j ==> e[k].0 != key,
        key_index_from(e, key, i) is None ==> forall|k: int| i <= k < e.len() ==> e[k].0 != key,
    decreases e.len() - i,
{
    if i < e.len() && e[i].0 != key {
        lemma_key_index(e, key, i + 1);
    }
}

/// Entries with the same keys at every position find every key at the same place.
proof fn lemma_same_keys<V>(a: Seq<(Seq<char>, V)>, b: Seq<(Seq<char>, V)>, key: Seq<char>, i: int)
    requires
        0 <= i,
        a.len() == b.len(),
        forall|k: int| 0 <= k < a.len() ==> (#[trigger] a[k]).0 == b[k].0,
    ensures
        key_index_from(a, key, i) == key_index_from(b, key, i),
    decreases a.len() - i,
{
    if i < a.len() {
        lemma_same_keys(a, b, key, i + 1);
    }
}

/// Appending an entry finds the earlier keys where they were, and its own
/// key at the end when it is new.
proof fn lemma_key_index_push<V>(e: Seq<(Seq<char>, V)>, x: (Seq<char>, V), key: Seq<char>, i: int)
    requires
        0 <= i <= e.len(),
    ensures
        key_index_from(e.push(x), key, i) == match key_index_from(e, key, i) {
            Some(j) => Some(j),
            None => if x.0 == key {
                Some(e.len() as int)
            } else {
                None
            },
        },
    decreases e.len() - i,
{
    if i < e.len() {
        assert(e.push(x)[i] == e[i]);
        lemma_key_index_push(e, x, key, i + 1);
    } else {
        assert(e.push(x)[i] == x);
        assert(key_index_from(e.push(x), key, i + 1) is None);
    }
}

/// What a read gives back of a write: after inserting `v` under `key`, the
/// table gives `v` for `key` and what it gave before for every other key;
/// it grows by one entry exactly when `key` was new.
pub proof fn insert_then_get<V>(e: Seq<(Seq<char>, V)>, key: Seq<char>, v: V, other: Seq<char>)
    ensures
        entries_get(entries_insert(e, key, v), key) == Some(v),
        other != key ==> entries_get(entries_insert(e, key, v), other) == entries_get(e, other),
        entries_insert(e, key, v).len() == e.len() + if entries_get(e, key) is Some {
            0int
        } else {
            1int
        },
{
    lemma_key_index(e, key, 0);
    lemma_key_index(e, other, 0);
    match key_index(e, key) {
        Some(i) => {
            let u = e.update(i, (key, v));
            lemma_same_keys(u, e, key, 0);
            lemma_same_keys(u, e, other, 0);
            lemma_key_index(u, other, 0);
        },
        None => {
            lemma_key_index_push(e, (key, v), key, 0);
            lemma_key_index_push(e, (key, v), other, 0);
        },
    }
}

/// What an `IndexMap<String, VkEnum>` holds: its entries in insertion order,
/// each key by its characters.
pub uninterp spec fn enum_map_entries(m: IndexMap<String, VkEnum>) -> Seq<(Seq<char>, EnumModel)>;

/// `IndexMap::new`: an empty map.
#[verifier::external_body]
pub(crate) fn enum_map_new() -> (m: IndexMap<String, VkEnum>)
    ensures
        enum_map_entries(m) == Seq::<(Seq<char>, EnumModel)>::empty(),
{
    IndexMap::new()
}

/// `IndexMap::len`: the number of entries.
#[verifier::external_body]
pub(crate) fn enum_map_len(m: &IndexMap<String, VkEnum>) -> (n: usize)
    ensures
        n == enum_map_entries(*m).len(),
{
    m.len()
}

/// `IndexMap::get_index`: the entry at position `i` in insertion order.
#[verifier::external_body]
pub(crate) fn enum_map_get_index<'a>(m: &'a IndexMap<String, VkEnum>, i: usize) -> (r: Option<(&'a String, &'a VkEnum)>)
    ensures
        match r {
            Some((k, v)) => i < enum_map_entries(*m).len() && enum_map_entries(*m)[i as int] == (k@, v@),
            None => i >= enum_map_entries(*m).len(),
        },
{
    m.get_index(i)
}

/// `IndexMap::get`: the value stored under `key`.
#[verifier::external_body]
pub(crate) fn enum_map_get<'a>(m: &'a IndexMap<String, VkEnum>, key: &str) -> (r: Option<&'a VkEnum>)
    ensures
        match r {
            Some(v) => entries_get(enum_map_entries(*m), key@) == Some(v@),
            None => entries_get(enum_map_entries(*m), key@) is None,
        },
{
    m.get(key)
}

/// `IndexMap::insert`: an existing key keeps its place and takes the new
/// value; a new key is added last.
#[verifier::external_body]
pub(crate) fn enum_map_insert(m: &mut IndexMap<String, VkEnum>, key: String, v: VkEnum)
    ensures
        enum_map_entries(*final(m)) == entries_insert(enum_map_entries(*old(m)), key@, v@),
{
    m.insert(key, v);
}

/// What an `IndexMap<String, VkType>` holds: its entries in insertion order,
/// each key by its characters.
pub uninterp spec fn type_map_entries(m: IndexMap<String, VkType>) -> Seq<(Seq<char>, TypeModel)>;

/// `IndexMap::new`: an empty map.
#[verifier::external_body]
pub(crate) fn type_map_new() -> (m: IndexMap<String, VkType>)
    ensures
        type_map_entries(m) == Seq::<(Seq<char>, TypeModel)>::empty(),
{
    IndexMap::new()
}

/// `IndexMap::len`: the number of entries.
#[verifier::external_body]
pub(crate) fn type_map_len(m: &IndexMap<String, VkType>) -> (n: usize)
    ensures
        n == type_map_entries(*m).len(),
{
    m.len()
}

/// `IndexMap::get_index`: the entry at position `i` in insertion order.
#[verifier::external_body]
pub(crate) fn type_map_get_index<'a>(m: &'a IndexMap<String, VkType>, i: usize) -> (r: Option<(&'a String, &'a VkType)>)
    ensures
        match r {
            Some((k, v)) => i < type_map_entries(*m).len() && type_map_entries(*m)[i as int] == (k@, v@),
            None => i >= type_map_entries(*m).len(),
        },
{
    m.get_index(i)
}

/// `IndexMap::insert`: an existing key keeps its place and takes the new
/// value; a new key is added last.
#[verifier::external_body]
pub(crate) fn type_map_insert(m: &mut IndexMap<String, VkType>, key: String, v: VkType)
    ensures
        type_map_entries(*final(m)) == entries_insert(type_map_entries(*old(m)), key@, v@),
{
    m.insert(key, v);
}

/// What an `IndexMap<String, VkCommand>` holds: its entries in insertion order,
/// each key by its characters.
pub uninterp spec fn command_map_entries(m: IndexMap<String, VkCommand>) -> Seq<(Seq<char>, CommandModel)>;

/// `IndexMap::new`: an empty map.
#[verifier::external_body]
pub(crate) fn command_map_new() -> (m: IndexMap<String, VkCommand>)
    ensures
        command_map_entries(m) == Seq::<(Seq<char>, CommandModel)>::empty(),
{
    IndexMap::new()
}

/// `IndexMap::get`: the value stored under `key`.
#[verifier::external_body]
pub(crate) fn command_map_get<'a>(m: &'a IndexMap<String, VkCommand>, key: &str) -> (r: Option<&'a VkCommand>)
    ensures
        match r {
            Some(v) => entries_get(command_map_entries(*m), key@) == Some(v@),
            None => entries_get(command_map_entries(*m), key@) is None,
        },
{
    m.get(key)
}

/// `IndexMap::insert`: an existing key keeps its place and takes the new
/// value; a new key is added last.
#[verifier::external_body]
pub(crate) fn command_map_insert(m: &mut IndexMap<String, VkCommand>, key: String, v: VkCommand)
    ensures
        command_map_entries(*final(m)) == entries_insert(command_map_entries(*old(m)), key@, v@),
{
    m.insert(key, v);
}

/// What an `IndexMap<String, (String, bool)>` holds: its entries in insertion order,
/// each key by its characters.
pub uninterp spec fn stype_map_entries(m: IndexMap<String, (String, bool)>) -> Seq<(Seq<char>, (Seq<char>, bool))>;

/// `IndexMap::new`: an empty map.
#[verifier::external_body]
pub(crate) fn stype_map_new() -> (m: IndexMap<String, (String, bool)>)
    ensures
        stype_map_entries(m) == Seq::<(Seq<char>, (Seq<char>, bool))>::empty(),
{
    IndexMap::new()
}

/// `IndexMap::get`: the value stored under `key`.
#[verifier::external_body]
pub(crate) fn stype_map_get<'a>(m: &'a IndexMap<String, (String, bool)>, key: &str) -> (r: Option<&'a (String, bool)>)
    ensures
        match r {
            Some(v) => entries_get(stype_map_entries(*m), key@) == Some((v.0@, v.1)),
            None => entries_get(stype_map_entries(*m), key@) is None,
        },
{
    m.get(key)
}

/// `IndexMap::insert`: an existing key keeps its place and takes the new
/// value; a new key is added last.
#[verifier::external_body]
pub(crate) fn stype_map_insert(m: &mut IndexMap<String, (String, bool)>, key: String, v: (String, bool))
    ensures
        stype_map_entries(*final(m)) == entries_insert(stype_map_entries(*old(m)), key@, (v.0@, v.1)),
{
    m.insert(key, v);
}

/// What an `IndexSet<String>` holds: its elements in insertion order.
pub uninterp spec fn string_set_entries(s: IndexSet<String>) -> Seq<Seq<char>>;

/// `IndexSet::new`: an empty set.
#[verifier::external_body]
pub(crate) fn string_set_new() -> (s: IndexSet<String>)
    ensures
        string_set_entries(s) == Seq::<Seq<char>>::empty(),
{
    IndexSet::new()
}

/// `IndexSet::len`: the number of elements.
#[verifier::external_body]
pub(crate) fn string_set_len(s: &IndexSet<String>) -> (n: usize)
    ensures
        n == string_set_entries(*s).len(),
{
    s.len()
}

/// `IndexSet::get_index`: the element at position `i` in insertion order.
#[verifier::external_body]
pub(crate) fn string_set_get_index<'a>(s: &'a IndexSet<String>, i: usize) -> (r: Option<&'a String>)
    ensures
        match r {
            Some(x) => i < string_set_entries(*s).len() && string_set_entries(*s)[i as int] == x@,
            None => i >= string_set_entries(*s).len(),
        },
{
    s.get_index(i)
}

/// `IndexSet::contains`.
#[verifier::external_body]
pub(crate) fn string_set_contains(s: &IndexSet<String>, x: &str) -> (r: bool)
    ensures
        r == string_set_entries(*s).contains(x@),
{
    s.contains(x)
}

/// `IndexSet::insert`: a new element is added last and `true` returned; an
/// element already there leaves the set as it was and `false` is returned.
#[verifier::external_body]
pub(crate) fn string_set_insert(s: &mut IndexSet<String>, x: String) -> (r: bool)
    ensures
        r == !string_set_entries(*old(s)).contains(x@),
        string_set_entries(*final(s)) == set_insert(string_set_entries(*old(s)), x@),
{
    s.insert(x)
}

/// What an `IndexMap<String, Vec<String>>` holds: its entries in insertion
/// order, each key and each listed string by its characters.
pub uninterp spec fn folder_map_entries(m: IndexMap<String, Vec<String>>) -> Seq<(Seq<char>, Seq<Seq<char>>)>;

/// `IndexMap::new`: an empty map.
#[verifier::external_body]
pub(crate) fn folder_map_new() -> (m: IndexMap<String, Vec<String>>)
    ensures
        folder_map_entries(m) == Seq::<(Seq<char>, Seq<Seq<char>>)>::empty(),
{
    IndexMap::new()
}

/// `IndexMap::get`: the list stored under `key`.
#[verifier::external_body]
pub(crate) fn folder_map_get<'a>(m: &'a IndexMap<String, Vec<String>>, key: &str) -> (r: Option<&'a Vec<String>>)
    ensures
        match r {
            Some(v) => entries_get(folder_map_entries(*m), key@) == Some(v@.map_values(|s: String| s@)),
            None => entries_get(folder_map_entries(*m), key@) is None,
        },
{
    m.get(key)
}

/// `IndexMap::insert`: an existing key keeps its place and takes the new
/// list; a new key is added last.
#[verifier::external_body]
pub(crate) fn folder_map_insert(m: &mut IndexMap<String, Vec<String>>, key: String, v: Vec<String>)
    ensures
        folder_map_entries(*final(m)) == entries_insert(
            folder_map_entries(*old(m)),
            key@,
            v@.map_values(|s: String| s@),
        ),
{
    m.insert(key, v);
}

} // verus!
