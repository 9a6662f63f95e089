//! Where the key-value service keeps its tables.
use vstd::prelude::*;
use crate::kv::error::KvError;
use crate::kv::pb::{Kvpair, Value, ValueView};

verus! {

/// A store of tables of values by key. Reads take `&self`; writes take
/// `&mut self`, so a store shared between threads sits behind a lock.
pub trait Storage: Sized {
    /// `r` is an answer the store may give to a get of `key` in `table`.
    spec fn answers_get(&self, table: Seq<char>, key: Seq<char>, r: Result<Option<Value>, KvError>) -> bool;

    /// Setting `key` to `value` in `table` may answer `r` and leave the
    /// store as `after`.
    spec fn answers_set(&self, after: Self, table: Seq<char>, key: Seq<char>, value: Option<ValueView>, r: Result<Option<Value>, KvError>) -> bool;

    /// `r` is an answer the store may give to asking whether `table` holds
    /// `key`.
    spec fn answers_contains(&self, table: Seq<char>, key: Seq<char>, r: Result<bool, KvError>) -> bool;

    /// Removing `key` from `table` may answer `r` and leave the store as
    /// `after`.
    spec fn answers_del(&self, after: Self, table: Seq<char>, key: Seq<char>, r: Result<Option<Value>, KvError>) -> bool;

    /// `r` is an answer the store may give to listing `table`.
    spec fn answers_get_all(&self, table: Seq<char>, r: Result<Vec<Kvpair>, KvError>) -> bool;

    /// The value of `key` in `table`, if any.
    fn get(&self, table: &str, key: &str) -> (r: Result<Option<Value>, KvError>)
        ensures
            self.answers_get(table@, key@, r);

    /// Sets `key` to `value` in `table`; the value it had, if any.
    fn set(&mut self, table: &str, key: String, value: Value) -> (r: Result<Option<Value>, KvError>)
        ensures
            old(self).answers_set(*final(self), table@, key@, value@, r);

    /// Whether `table` holds `key`.
    fn contains(&self, table: &str, key: &str) -> (r: Result<bool, KvError>)
        ensures
            self.answers_contains(table@, key@, r);

    /// Removes `key` from `table`; the value it had, if any.
    fn del(&mut self, table: &str, key: &str) -> (r: Result<Option<Value>, KvError>)
        ensures
            old(self).answers_del(*final(self), table@, key@, r);

    /// Every pair of `table`.
    fn get_all(&self, table: &str) -> (r: Result<Vec<Kvpair>, KvError>)
        ensures
            self.answers_get_all(table@, r);
}

#[verifier::external_type_specification]
#[verifier::external_body]
#[verifier::reject_recursive_types(K)]
#[verifier::reject_recursive_types(V)]
#[verifier::reject_recursive_types(S)]
pub struct ExDashMap<K, V, S>(dashmap::DashMap<K, V, S>);

/// One table: values by key.
pub type Table = dashmap::DashMap<String, Value>;

/// All tables, by name.
pub type Tables = dashmap::DashMap<String, Table>;

/// What a map of tables holds: for each table name and key, the value
/// stored there. A table without keys holds nothing.
pub uninterp spec fn tables_contents(t: Tables) -> Map<(Seq<char>, Seq<char>), Option<ValueView>>;

/// `o` is what a lookup of `key` in `contents` finds: the value stored
/// there, or nothing where there is none.
pub open spec fn found(o: Option<Value>, contents: Map<(Seq<char>, Seq<char>), Option<ValueView>>, key: (Seq<char>, Seq<char>)) -> bool {
    match o {
        Some(v) => contents.contains_key(key) && v@ == contents[key],
        None => !contents.contains_key(key),
    }
}

/// `pairs` lists the table `table` of `contents`: each key of the table
/// once, with its value, and nothing else.
pub open spec fn lists_table(pairs: Seq<Kvpair>, contents: Map<(Seq<char>, Seq<char>), Option<ValueView>>, table: Seq<char>) -> bool {
    &&& forall|i: int, j: int| 0 <= i < j < pairs.len() ==> pairs[i].key@ != pairs[j].key@
    &&& forall|i: int| 0 <= i < pairs.len() ==> {
        &&& contents.contains_key((table, (#[trigger] pairs[i]).key@))
        &&& pairs[i].value matches Some(v) && v@ == contents[(table, pairs[i].key@)]
    }
    &&& forall|k: Seq<char>| #[trigger] contents.contains_key((table, k)) ==>
        exists|i: int| 0 <= i < pairs.len() && (#[trigger] pairs[i]).key@ == k
}

// Each wrapper below reaches the table through `entry(..).or_default()`,
// which makes the table empty where there is none yet, as every access of
// the store does. An empty table holds no pair, so that changes nothing of
// `tables_contents`. The writes take the map by `&mut`: while they run, no
// other holder can change it.

/// Calls `DashMap::new`: a map that holds no table.
#[verifier::external_body]
fn new_tables() -> (t: Tables)
    ensures
        tables_contents(t).dom() == Set::<(Seq<char>, Seq<char>)>::empty(),
{
    dashmap::DashMap::new()
}

/// Calls `DashMap::get` on the table named `table` and copies the value of
/// `key` out.
#[verifier::external_body]
fn tables_get(t: &Tables, table: &str, key: &str) -> (r: Option<Value>)
    ensures
        found(r, tables_contents(*t), (table@, key@)),
{
    t.entry(table.to_string()).or_default().get(key).map(|v| v.value().clone())
}

/// Calls `DashMap::insert` on the table named `table`: the value `key` had
/// comes back, and the key now has `value`.
#[verifier::external_body]
fn tables_insert(t: &mut Tables, table: &str, key: String, value: Value) -> (r: Option<Value>)
    ensures
        found(r, tables_contents(*old(t)), (table@, key@)),
        tables_contents(*final(t)) == tables_contents(*old(t)).insert((table@, key@), value@),
{
    t.entry(table.to_string()).or_default().insert(key, value)
}

/// Calls `DashMap::contains_key` on the table named `table`.
#[verifier::external_body]
fn tables_contains(t: &Tables, table: &str, key: &str) -> (r: bool)
    ensures
        r == tables_contents(*t).contains_key((table@, key@)),
{
    t.entry(table.to_string()).or_default().contains_key(key)
}

/// Calls `DashMap::remove` on the table named `table`: the value `key` had
/// comes back, and the key is gone.
#[verifier::external_body]
fn tables_remove(t: &mut Tables, table: &str, key: &str) -> (r: Option<Value>)
    ensures
        found(r, tables_contents(*old(t)), (table@, key@)),
        tables_contents(*final(t)) == tables_contents(*old(t)).remove((table@, key@)),
{
    t.entry(table.to_string()).or_default().remove(key).map(|e| e.1)
}

/// Calls `DashMap::iter` on the table named `table`, making a pair of each
/// entry. Each key comes once: a key lives in one shard, which is walked
/// once. In what order the shards give them is left unsaid.
#[verifier::external_body]
fn tables_pairs(t: &Tables, table: &str) -> (r: Vec<Kvpair>)
    ensures
        lists_table(r@, tables_contents(*t), table@),
{
    t.entry(table.to_string()).or_default().iter().map(|e| Kvpair::new(e.key(), e.value().clone())).collect()
}

/// Tables kept in memory.
#[derive(Debug)]
pub struct Memtable {
    table: Tables,
}

impl Memtable {
    /// The value stored under each table name and key.
    pub closed spec fn contents(&self) -> Map<(Seq<char>, Seq<char>), Option<ValueView>> {
        tables_contents(self.table)
    }

    /// An empty store.
    pub fn new() -> (m: Self)
        ensures
            m.contents() =~= Map::empty(),
    {
        Memtable { table: new_tables() }
    }
}

impl Default for Memtable {
    fn default() -> (m: Self)
        ensures
            m.contents() =~= Map::empty(),
    {
        Memtable::new()
    }
}

impl Storage for Memtable {
    /// A get finds what is stored.
    open spec fn answers_get(&self, table: Seq<char>, key: Seq<char>, r: Result<Option<Value>, KvError>) -> bool {
        r matches Ok(o) && found(o, self.contents(), (table, key))
    }

    /// A set answers what was stored, and stores `value`.
    open spec fn answers_set(&self, after: Self, table: Seq<char>, key: Seq<char>, value: Option<ValueView>, r: Result<Option<Value>, KvError>) -> bool {
        &&& r matches Ok(o) && found(o, self.contents(), (table, key))
        &&& after.contents() == self.contents().insert((table, key), value)
    }

    open spec fn answers_contains(&self, table: Seq<char>, key: Seq<char>, r: Result<bool, KvError>) -> bool {
        r == Ok::<bool, KvError>(self.contents().contains_key((table, key)))
    }

    /// A removal answers what was stored, and removes it.
    open spec fn answers_del(&self, after: Self, table: Seq<char>, key: Seq<char>, r: Result<Option<Value>, KvError>) -> bool {
        &&& r matches Ok(o) && found(o, self.contents(), (table, key))
        &&& after.contents() == self.contents().remove((table, key))
    }

    open spec fn answers_get_all(&self, table: Seq<char>, r: Result<Vec<Kvpair>, KvError>) -> bool {
        r matches Ok(pairs) && lists_table(pairs@, self.contents(), table)
    }

    fn get(&self, table: &str, key: &str) -> (r: Result<Option<Value>, KvError>) {
        Ok(tables_get(&self.table, table, key))
    }

    fn set(&mut self, table: &str, key: String, value: Value) -> (r: Result<Option<Value>, KvError>) {
        Ok(tables_insert(&mut self.table, table, key, value))
    }

    fn contains(&self, table: &str, key: &str) -> (r: Result<bool, KvError>) {
        Ok(tables_contains(&self.table, table, key))
    }

    fn del(&mut self, table: &str, key: &str) -> (r: Result<Option<Value>, KvError>) {
        Ok(tables_remove(&mut self.table, table, key))
    }

    fn get_all(&self, table: &str) -> (r: Result<Vec<Kvpair>, KvError>) {
        Ok(tables_pairs(&self.table, table))
    }
}

/// What a set stores, a later get of the same table and key finds.
pub proof fn lemma_get_after_set(
    m0: Memtable,
    m1: Memtable,
    table: Seq<char>,
    key: Seq<char>,
    value: Option<ValueView>,
    r1: Result<Option<Value>, KvError>,
    r2: Result<Option<Value>, KvError>,
)
    requires
        m0.answers_set(m1, table, key, value, r1),
        m1.answers_get(table, key, r2),
    ensures
        r2 matches Ok(Some(v)) && v@ == value,
{
}

/// A removed key is not found again.
pub proof fn lemma_get_after_del(
    m0: Memtable,
    m1: Memtable,
    table: Seq<char>,
    key: Seq<char>,
    r1: Result<Option<Value>, KvError>,
    r2: Result<Option<Value>, KvError>,
)
    requires
        m0.answers_del(m1, table, key, r1),
        m1.answers_get(table, key, r2),
    ensures
        r2 == Ok::<Option<Value>, KvError>(None),
{
}

/// A set or a removal of one key leaves every other table and key as it
/// was.
pub proof fn lemma_other_keys_kept(
    m0: Memtable,
    m1: Memtable,
    table: Seq<char>,
    key: Seq<char>,
    value: Option<ValueView>,
    r: Result<Option<Value>, KvError>,
    other: (Seq<char>, Seq<char>),
)
    requires
        m0.answers_set(m1, table, key, value, r) || m0.answers_del(m1, table, key, r),
        other != (table, key),
    ensures
        m1.contents().contains_key(other) == m0.contents().contains_key(other),
        m1.contents().contains_key(other) ==> m1.contents()[other] == m0.contents()[other],
{
}

} // verus!
