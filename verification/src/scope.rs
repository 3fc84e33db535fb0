//! The names that a scope defines: symbols and types, each found by name and
//! named by identifier, in the order they were first defined.
use indexmap::IndexMap;
use vstd::prelude::*;

verus! {

#[verifier::external_type_specification]
#[verifier::external_body]
#[verifier::reject_recursive_types(K)]
#[verifier::reject_recursive_types(V)]
#[verifier::reject_recursive_types(S)]
pub struct ExIndexMap<K, V, S>(IndexMap<K, V, S>);

/// The entries of a map from names to identifiers, in the map's order.
pub uninterp spec fn name_entries(map: IndexMap<String, usize>) -> Seq<(Seq<char>, usize)>;

/// The entries of a map from identifiers to names, in the map's order.
pub uninterp spec fn id_entries(map: IndexMap<usize, String>) -> Seq<(usize, Seq<char>)>;

/// The index of the last entry with key `key`.
pub open spec fn find_key<K, V>(entries: Seq<(K, V)>, key: K) -> Option<nat>
    decreases entries.len(),
{
    if entries.len() == 0 {
        None
    } else if entries.last().0 == key {
        Some((entries.len() - 1) as nat)
    } else {
        find_key(entries.drop_last(), key)
    }
}

/// The value of `key` among `entries`.
pub open spec fn entries_get<K, V>(entries: Seq<(K, V)>, key: K) -> Option<V> {
    match find_key(entries, key) {
        Some(i) => Some(entries[i as int].1),
        None => None,
    }
}

/// `entries` after inserting `key` with `value`: an existing key keeps its
/// place and takes the new value; a new key goes last.
pub open spec fn entries_insert<K, V>(entries: Seq<(K, V)>, key: K, value: V) -> Seq<(K, V)> {
    match find_key(entries, key) {
        Some(i) => entries.update(i as int, (key, value)),
        None => entries.push((key, value)),
    }
}

/// The keys of `entries`, in order.
pub open spec fn entry_keys<K, V>(entries: Seq<(K, V)>) -> Seq<K> {
    entries.map_values(|entry: (K, V)| entry.0)
}

/// `IndexMap::new`: an empty map.
#[verifier::external_body]
fn new_name_map() -> (result: IndexMap<String, usize>)
    ensures
        name_entries(result) == Seq::<(Seq<char>, usize)>::empty(),
{
    IndexMap::new()
}

/// `IndexMap::new`: an empty map.
#[verifier::external_body]
fn new_id_map() -> (result: IndexMap<usize, String>)
    ensures
        id_entries(result) == Seq::<(usize, Seq<char>)>::empty(),
{
    IndexMap::new()
}

/// `IndexMap::insert`: an existing key keeps its place and takes the new
/// value; a new key goes last.
#[verifier::external_body]
fn insert_by_name(map: &mut IndexMap<String, usize>, key: String, value: usize)
    ensures
        name_entries(*final(map)) == entries_insert(name_entries(*old(map)), key@, value),
{
    map.insert(key, value);
}

/// `IndexMap::insert`: an existing key keeps its place and takes the new
/// value; a new key goes last.
#[verifier::external_body]
fn insert_by_id(map: &mut IndexMap<usize, String>, key: usize, value: String)
    ensures
        id_entries(*final(map)) == entries_insert(id_entries(*old(map)), key, value@),
{
    map.insert(key, value);
}

/// `IndexMap::get`: the value stored for `key`.
#[verifier::external_body]
fn get_by_name(map: &IndexMap<String, usize>, key: &str) -> (result: Option<usize>)
    ensures
        result == entries_get(name_entries(*map), key@),
{
    map.get(key).copied()
}

/// `IndexMap::get`: the value stored for `key`.
#[verifier::external_body]
fn get_by_id<'a>(map: &'a IndexMap<usize, String>, key: usize) -> (result: Option<&'a String>)
    ensures
        match result {
            Some(name) => entries_get(id_entries(*map), key) == Some(name@),
            None => entries_get(id_entries(*map), key) is None,
        },
{
    map.get(&key)
}

/// `IndexMap::contains_key`: whether `key` has an entry.
#[verifier::external_body]
fn contains_id(map: &IndexMap<usize, String>, key: usize) -> (result: bool)
    ensures
        result == (find_key(id_entries(*map), key) is Some),
{
    map.contains_key(&key)
}

/// `IndexMap::keys`: the keys, in the map's order.
#[verifier::external_body]
fn ids_in_order(map: &IndexMap<usize, String>) -> (result: Vec<usize>)
    ensures
        result@ == entry_keys(id_entries(*map)),
{
    map.keys().copied().collect()
}

/// The identifier of a symbol.
#[derive(Debug, Clone, Copy, PartialEq, Eq, Hash, Structural)]
pub struct SymbolId(pub usize);

/// The identifier of a type.
#[derive(Debug, Clone, Copy, PartialEq, Eq, Hash, Structural)]
pub struct TypeId(pub usize);

/// The symbols and types that one scope defines.
#[derive(Debug)]
pub struct Scope {
    named_symbols: IndexMap<String, usize>,
    symbol_names: IndexMap<usize, String>,
    named_types: IndexMap<String, usize>,
    type_names: IndexMap<usize, String>,
}

impl Scope {
    /// Each symbol name with its symbol, in definition order.
    pub closed spec fn symbols(&self) -> Seq<(Seq<char>, usize)> {
        name_entries(self.named_symbols)
    }

    /// Each defined symbol with its name, in definition order.
    pub closed spec fn symbol_names(&self) -> Seq<(usize, Seq<char>)> {
        id_entries(self.symbol_names)
    }

    /// Each type name with its type, in definition order.
    pub closed spec fn types(&self) -> Seq<(Seq<char>, usize)> {
        name_entries(self.named_types)
    }

    /// Each defined type with its name, in definition order.
    pub closed spec fn type_names(&self) -> Seq<(usize, Seq<char>)> {
        id_entries(self.type_names)
    }

    /// Defines `name` as `symbol_id`.
    pub fn define_symbol(&mut self, name: String, symbol_id: SymbolId)
        ensures
            final(self).symbols() == entries_insert(old(self).symbols(), name@, symbol_id.0),
            final(self).symbol_names() == entries_insert(old(self).symbol_names(), symbol_id.0, name@),
            final(self).types() == old(self).types(),
            final(self).type_names() == old(self).type_names(),
    {
        insert_by_name(&mut self.named_symbols, name.clone(), symbol_id.0);
        insert_by_id(&mut self.symbol_names, symbol_id.0, name);
    }

    /// The symbol defined as `name`.
    pub fn symbol(&self, name: &str) -> (result: Option<SymbolId>)
        ensures
            match result {
                Some(id) => entries_get(self.symbols(), name@) == Some(id.0),
                None => entries_get(self.symbols(), name@) is None,
            },
    {
        match get_by_name(&self.named_symbols, name) {
            Some(id) => Some(SymbolId(id)),
            None => None,
        }
    }

    /// Defines `name` as `type_id`.
    pub fn define_type(&mut self, name: String, type_id: TypeId)
        ensures
            final(self).types() == entries_insert(old(self).types(), name@, type_id.0),
            final(self).type_names() == entries_insert(old(self).type_names(), type_id.0, name@),
            final(self).symbols() == old(self).symbols(),
            final(self).symbol_names() == old(self).symbol_names(),
    {
        insert_by_name(&mut self.named_types, name.clone(), type_id.0);
        insert_by_id(&mut self.type_names, type_id.0, name);
    }

    /// The type defined as `name`.
    pub fn ty(&self, name: &str) -> (result: Option<TypeId>)
        ensures
            match result {
                Some(id) => entries_get(self.types(), name@) == Some(id.0),
                None => entries_get(self.types(), name@) is None,
            },
    {
        match get_by_name(&self.named_types, name) {
            Some(id) => Some(TypeId(id)),
            None => None,
        }
    }

    /// The name that `type_id` was defined with.
    pub fn name_of_type(&self, type_id: TypeId) -> (result: Option<&str>)
        ensures
            match result {
                Some(name) => entries_get(self.type_names(), type_id.0) == Some(name@),
                None => entries_get(self.type_names(), type_id.0) is None,
            },
    {
        match get_by_id(&self.type_names, type_id.0) {
            Some(name) => Some(name.as_str()),
            None => None,
        }
    }

    /// The name that `symbol_id` was defined with.
    pub fn symbol_name(&self, symbol_id: SymbolId) -> (result: Option<&str>)
        ensures
            match result {
                Some(name) => entries_get(self.symbol_names(), symbol_id.0) == Some(name@),
                None => entries_get(self.symbol_names(), symbol_id.0) is None,
            },
    {
        match get_by_id(&self.symbol_names, symbol_id.0) {
            Some(name) => Some(name.as_str()),
            None => None,
        }
    }

    /// Whether this scope defines `symbol_id`.
    pub fn is_local(&self, symbol_id: SymbolId) -> (result: bool)
        ensures
            result == (find_key(self.symbol_names(), symbol_id.0) is Some),
    {
        contains_id(&self.symbol_names, symbol_id.0)
    }

    /// The symbols this scope defines, in definition order.
    pub fn local_symbols(&self) -> (result: Vec<SymbolId>)
        ensures
            result@.len() == self.symbol_names().len(),
            forall|i: int|
                0 <= i < result@.len() ==> #[trigger] result@[i].0 == self.symbol_names()[i].0,
    {
        let ids = ids_in_order(&self.symbol_names);
        let mut result: Vec<SymbolId> = Vec::new();
        let mut i: usize = 0;
        while i < ids.len()
            invariant
                i <= ids@.len(),
                ids@ == entry_keys(self.symbol_names()),
                result@.len() == i,
                forall|j: int| 0 <= j < i ==> #[trigger] result@[j].0 == ids@[j],
            decreases ids@.len() - i,
        {
            result.push(SymbolId(ids[i]));
            i += 1;
        }
        result
    }

    /// The types this scope defines, in definition order.
    pub fn local_types(&self) -> (result: Vec<TypeId>)
        ensures
            result@.len() == self.type_names().len(),
            forall|i: int|
                0 <= i < result@.len() ==> #[trigger] result@[i].0 == self.type_names()[i].0,
    {
        let ids = ids_in_order(&self.type_names);
        let mut result: Vec<TypeId> = Vec::new();
        let mut i: usize = 0;
        while i < ids.len()
            invariant
                i <= ids@.len(),
                ids@ == entry_keys(self.type_names()),
                result@.len() == i,
                forall|j: int| 0 <= j < i ==> #[trigger] result@[j].0 == ids@[j],
            decreases ids@.len() - i,
        {
            result.push(TypeId(ids[i]));
            i += 1;
        }
        result
    }
}

impl Default for Scope {
    fn default() -> (result: Self)
        ensures
            result.symbols().len() == 0,
            result.symbol_names().len() == 0,
            result.types().len() == 0,
            result.type_names().len() == 0,
    {
        Scope {
            named_symbols: new_name_map(),
            symbol_names: new_id_map(),
            named_types: new_name_map(),
            type_names: new_id_map(),
        }
    }
}

// ---------------------------------------------------------------------------
// Laws of definition and lookup.

proof fn lemma_find_key_some<K, V>(entries: Seq<(K, V)>, key: K)
    ensures
        find_key(entries, key) matches Some(i) ==> i < entries.len() && entries[i as int].0 == key
            && forall|j: int| i < j < entries.len() ==> #[trigger] entries[j].0 != key,
        find_key(entries, key) is None ==> forall|j: int| 0 <= j < entries.len() ==> #[trigger] entries[j].0 != key,
    decreases entries.len(),
{
    if entries.len() > 0 {
        lemma_find_key_some(entries.drop_last(), key);
        if entries.last().0 != key {
            assert forall|j: int| 0 <= j < entries.len() - 1 implies entries.drop_last()[j] == #[trigger] entries[j] by {}
        }
    }
}

proof fn lemma_find_key_unique<K, V>(entries: Seq<(K, V)>, key: K, i: int)
    requires
        0 <= i < entries.len(),
        entries[i].0 == key,
        forall|j: int| i < j < entries.len() ==> #[trigger] entries[j].0 != key,
    ensures
        find_key(entries, key) == Some(i as nat),
    decreases entries.len(),
{
    if i < entries.len() - 1 {
        assert(entries.drop_last()[i] == entries[i]);
        assert forall|j: int| i < j < entries.drop_last().len() implies #[trigger] entries.drop_last()[j].0 != key by {
            assert(entries.drop_last()[j] == entries[j]);
        }
        lemma_find_key_unique(entries.drop_last(), key, i);
    }
}

/// A key reads back the value last defined for it.
pub proof fn law_read_after_define<K, V>(entries: Seq<(K, V)>, key: K, value: V)
    ensures
        entries_get(entries_insert(entries, key, value), key) == Some(value),
{
    lemma_find_key_some(entries, key);
    let after = entries_insert(entries, key, value);
    match find_key(entries, key) {
        Some(i) => {
            assert forall|j: int| i < j < after.len() implies #[trigger] after[j].0 != key by {
                assert(after[j] == entries[j]);
            }
            lemma_find_key_unique(after, key, i as int);
        },
        None => {
            lemma_find_key_unique(after, key, entries.len() as int);
        },
    }
}

/// Sequences with the same keys at the same places find keys alike.
proof fn lemma_find_key_same_keys<K, V>(a: Seq<(K, V)>, b: Seq<(K, V)>, key: K)
    requires
        a.len() == b.len(),
        forall|j: int| 0 <= j < a.len() ==> #[trigger] a[j].0 == b[j].0,
    ensures
        find_key(a, key) == find_key(b, key),
    decreases a.len(),
{
    if a.len() > 0 {
        assert forall|j: int| 0 <= j < a.len() - 1 implies #[trigger] a.drop_last()[j].0 == b.drop_last()[j].0 by {
            assert(a[j].0 == b[j].0);
        }
        lemma_find_key_same_keys(a.drop_last(), b.drop_last(), key);
    }
}

/// Defining one key leaves every other key's value as it was.
pub proof fn law_define_keeps_other_keys<K, V>(entries: Seq<(K, V)>, key: K, value: V, other: K)
    requires
        other != key,
    ensures
        entries_get(entries_insert(entries, key, value), other) == entries_get(entries, other),
{
    lemma_find_key_some(entries, key);
    lemma_find_key_some(entries, other);
    let after = entries_insert(entries, key, value);
    match find_key(entries, key) {
        Some(k) => {
            assert forall|j: int| 0 <= j < entries.len() implies #[trigger] after[j].0 == entries[j].0 by {}
            lemma_find_key_same_keys(after, entries, other);
            match find_key(entries, other) {
                Some(i) => {
                    assert(i != k);
                    assert(after[i as int] == entries[i as int]);
                },
                None => {},
            }
        },
        None => {
            assert(after.drop_last() =~= entries);
            assert(after.last().0 == key);
        },
    }
}

/// Defining a new key appends it to the order; redefining a key keeps the
/// order.
pub proof fn law_define_order<K, V>(entries: Seq<(K, V)>, key: K, value: V)
    ensures
        entry_keys(entries_insert(entries, key, value)) == if find_key(entries, key) is Some {
            entry_keys(entries)
        } else {
            entry_keys(entries).push(key)
        },
{
    lemma_find_key_some(entries, key);
    let after = entries_insert(entries, key, value);
    if find_key(entries, key) is Some {
        assert(entry_keys(after) =~= entry_keys(entries));
    } else {
        assert(entry_keys(after) =~= entry_keys(entries).push(key));
    }
}

} // verus!
