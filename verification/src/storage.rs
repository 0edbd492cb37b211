//! The key-value store and its configuration.
//!
//! The store is a vector of entries with pairwise distinct keys, read and
//! written through `get` and `set`; expiration is lazy, checked on read
//! against a caller-supplied clock.  Registered replicas are outboxes:
//! queues of commands that a caller drains and delivers.

use vstd::prelude::*;
use vstd::string::StringExecFns;
use crate::info::{Info, spec_role};
use crate::protocol::{Cmd, CmdV};
use crate::text::str_eq;

verus! {

/// The command-line arguments the server core reads.
#[derive(Debug)]
pub struct Args {
    pub dir: Option<String>,
    pub dbfilename: Option<String>,
    pub port: Option<u16>,
    pub replicaof: Option<String>,
}

/// The immutable startup configuration.
#[derive(Debug)]
pub struct Config {
    pub port: u16,
    pub replicaof: Option<String>,
    pub dir: Option<String>,
    pub dbfilename: Option<String>,
}

/// The view of an optional string.
pub open spec fn opt_str(o: Option<String>) -> Option<Seq<char>> {
    match o {
        Some(s) => Some(s@),
        None => None,
    }
}

/// The TCP port used when none is given.
pub const DEFAULT_PORT: u16 = 6379;

/// A copy of an optional string.
pub fn clone_opt_string(o: &Option<String>) -> (r: Option<String>)
    ensures
        r == *o,
{
    match o {
        Some(s) => Some(s.clone()),
        None => None,
    }
}

impl Config {
    /// Read the configuration out of the parsed arguments, defaulting
    /// the port.
    pub fn config_from_args(args: &Args) -> (r: Config)
        ensures
            r.port == (match args.port {
                Some(p) => p,
                None => DEFAULT_PORT,
            }),
            r.replicaof == args.replicaof,
            r.dir == args.dir,
            r.dbfilename == args.dbfilename,
    {
        let port = match args.port {
            Some(p) => p,
            None => DEFAULT_PORT,
        };
        Config {
            port,
            replicaof: clone_opt_string(&args.replicaof),
            dir: clone_opt_string(&args.dir),
            dbfilename: clone_opt_string(&args.dbfilename),
        }
    }

    /// The snapshot file path, `dir` and `dbfilename` joined by `/`,
    /// when both are configured.
    pub fn db_path(&self) -> (r: Option<String>)
        ensures
            match r {
                Some(p) => self.dir matches Some(d) && self.dbfilename matches Some(f) && p@ == d@
                    + "/"@ + f@,
                None => self.dir is None || self.dbfilename is None,
            },
    {
        match (&self.dir, &self.dbfilename) {
            (Some(d), Some(f)) => {
                let mut p = d.clone();
                p.append("/");
                p.append(f.as_str());
                Some(p)
            },
            _ => None,
        }
    }

    /// A copy of the configuration.
    pub fn clone_config(&self) -> (r: Config)
        ensures
            r == *self,
    {
        Config {
            port: self.port,
            replicaof: clone_opt_string(&self.replicaof),
            dir: clone_opt_string(&self.dir),
            dbfilename: clone_opt_string(&self.dbfilename),
        }
    }
}

/// A stored value: a plain string, or a string with an absolute
/// expiration instant in milliseconds since the epoch.
#[derive(Debug)]
pub enum Value {
    Data { data: String },
    DataWithTTL { data: String, expiration: u64 },
}

/// One stored key with its value.
#[derive(Debug)]
pub struct Entry {
    pub key: String,
    pub value: Value,
}

/// The view of an entry: key, value, optional expiration.
pub struct EntryV {
    pub key: Seq<char>,
    pub value: Seq<char>,
    pub expiration: Option<u64>,
}

/// The view of one entry.
pub open spec fn entry_view(e: Entry) -> EntryV {
    match e.value {
        Value::Data { data } => EntryV { key: e.key@, value: data@, expiration: None },
        Value::DataWithTTL { data, expiration } => EntryV {
            key: e.key@,
            value: data@,
            expiration: Some(expiration),
        },
    }
}

/// The views of a sequence of entries.
pub open spec fn entries_view(s: Seq<Entry>) -> Seq<EntryV> {
    s.map(|i: int, e: Entry| entry_view(e))
}

/// No two entries share a key.
pub open spec fn unique_keys(s: Seq<EntryV>) -> bool {
    forall|i: int, j: int| 0 <= i < j < s.len() ==> s[i].key != s[j].key
}

/// Some entry holds key `k`.
pub open spec fn has_key(s: Seq<EntryV>, k: Seq<char>) -> bool {
    exists|i: int| 0 <= i < s.len() && s[i].key == k
}

/// The index of the entry holding key `k`.
pub open spec fn key_idx(s: Seq<EntryV>, k: Seq<char>) -> int {
    choose|i: int| 0 <= i < s.len() && s[i].key == k
}

/// The entry holding key `k`, if any.
pub open spec fn spec_get(s: Seq<EntryV>, k: Seq<char>) -> Option<EntryV> {
    if has_key(s, k) {
        Some(s[key_idx(s, k)])
    } else {
        None
    }
}

/// Insert or replace: the entry with `e`'s key is overwritten in place,
/// or `e` is appended.
pub open spec fn spec_set(s: Seq<EntryV>, e: EntryV) -> Seq<EntryV> {
    if has_key(s, e.key) {
        s.update(key_idx(s, e.key), e)
    } else {
        s.push(e)
    }
}

/// Remove the entry with key `k`, if any.
pub open spec fn spec_remove(s: Seq<EntryV>, k: Seq<char>) -> Seq<EntryV> {
    if has_key(s, k) {
        s.remove(key_idx(s, k))
    } else {
        s
    }
}

/// An entry is live at `now` unless its expiration has been reached:
/// equality counts as expired.
pub open spec fn live(e: EntryV, now: u64) -> bool {
    match e.expiration {
        None => true,
        Some(x) => x > now,
    }
}

/// With unique keys, the found index is the index.
pub proof fn lemma_key_idx(s: Seq<EntryV>, k: Seq<char>, i: int)
    requires
        unique_keys(s),
        0 <= i < s.len(),
        s[i].key == k,
    ensures
        has_key(s, k),
        key_idx(s, k) == i,
{
    assert(has_key(s, k));
    let w = key_idx(s, k);
    if w != i {
        if w < i {
            assert(s[w].key != s[i].key);
        } else {
            assert(s[i].key != s[w].key);
        }
    }
}

/// Insertion keeps the keys pairwise distinct.
pub proof fn lemma_set_preserves_unique(s: Seq<EntryV>, e: EntryV)
    requires
        unique_keys(s),
    ensures
        unique_keys(spec_set(s, e)),
{
    let t = spec_set(s, e);
    if has_key(s, e.key) {
        let i = key_idx(s, e.key);
        assert(0 <= i < s.len() && s[i].key == e.key);
        assert forall|a: int, b: int| 0 <= a < b < t.len() implies t[a].key != t[b].key by {
            assert(s[a].key != s[b].key);
        }
    } else {
        assert forall|a: int, b: int| 0 <= a < b < t.len() implies t[a].key != t[b].key by {
            if b < s.len() {
                assert(s[a].key != s[b].key);
            } else {
                assert(t[b] == e);
                assert(!(s[a].key == e.key));
            }
        }
    }
}

/// After an insertion, the inserted key reads back as the entry.
pub proof fn lemma_get_after_set(s: Seq<EntryV>, e: EntryV)
    requires
        unique_keys(s),
    ensures
        unique_keys(spec_set(s, e)),
        spec_get(spec_set(s, e), e.key) == Some(e),
{
    lemma_set_preserves_unique(s, e);
    let t = spec_set(s, e);
    if has_key(s, e.key) {
        let i = key_idx(s, e.key);
        assert(0 <= i < s.len() && s[i].key == e.key);
        assert(t[i] == e);
        lemma_key_idx(t, e.key, i);
    } else {
        assert(t[s.len() as int] == e);
        lemma_key_idx(t, e.key, s.len() as int);
    }
}

/// The views of a sequence of commands.
pub open spec fn seq_cmd_view(s: Seq<Cmd>) -> Seq<CmdV> {
    s.map(|i: int, c: Cmd| c@)
}

/// The views of the replica outboxes.
pub open spec fn outboxes_view(s: Seq<Vec<Cmd>>) -> Seq<Seq<CmdV>> {
    s.map(|i: int, v: Vec<Cmd>| seq_cmd_view(v@))
}

/// The in-memory store: configuration, metadata, the keyspace, and one
/// outbox of pending commands per registered replica.
#[derive(Debug)]
pub struct Db {
    pub config: Config,
    pub info: Info,
    pub data: Vec<Entry>,
    pub connected_slaves: Vec<Vec<Cmd>>,
}

/// Find the index of `key` among the entries.
fn find_key_index(data: &Vec<Entry>, key: &str) -> (r: Option<usize>)
    ensures
        match r {
            Some(i) => i < data@.len() && entries_view(data@)[i as int].key == key@,
            None => !has_key(entries_view(data@), key@),
        },
{
    let n = data.len();
    let mut i: usize = 0;
    loop
        invariant
            0 <= i <= n,
            n == data@.len(),
            forall|j: int| 0 <= j < i ==> entries_view(data@)[j].key != key@,
        decreases n - i,
    {
        if i == n {
            return None;
        }
        if str_eq(data[i].key.as_str(), key) {
            assert(entries_view(data@)[i as int].key == key@);
            return Some(i);
        }
        assert(entries_view(data@)[i as int].key != key@);
        i = i + 1;
    }
}

impl Db {
    /// The store's well-formedness: keys are pairwise distinct.
    pub open spec fn wf(&self) -> bool {
        unique_keys(entries_view(self.data@))
    }

    /// The store's keyspace view.
    pub open spec fn entries(&self) -> Seq<EntryV> {
        entries_view(self.data@)
    }

    /// The replica outboxes' view.
    pub open spec fn outboxes(&self) -> Seq<Seq<CmdV>> {
        outboxes_view(self.connected_slaves@)
    }

    /// An empty store for `config`, with fresh metadata and no replicas.
    pub fn new(config: Config) -> (r: Db)
        ensures
            r.wf(),
            r.entries() =~= Seq::<EntryV>::empty(),
            r.outboxes() =~= Seq::<Seq<CmdV>>::empty(),
            r.config == config,
            r.info.replication.role@ == spec_role(config.replicaof is Some),
            r.info.replication.master_replid@.len() == 36,
            r.info.replication.master_repl_offset == 0,
            r.info.replication.connected_slaves == 0,
    {
        let info = Info::from(&config);
        Db { connected_slaves: Vec::new(), info, config, data: Vec::new() }
    }

    /// Insert or replace `key`, with the given expiration instant.
    pub fn set(&mut self, key: &str, value: &str, expiration_ms: Option<u64>)
        requires
            old(self).wf(),
        ensures
            final(self).wf(),
            final(self).entries() == spec_set(
                old(self).entries(),
                EntryV { key: key@, value: value@, expiration: expiration_ms },
            ),
            final(self).config == old(self).config,
            final(self).info == old(self).info,
            final(self).connected_slaves == old(self).connected_slaves,
    {
        let ghost s0 = entries_view(self.data@);
        let ghost ev = EntryV { key: key@, value: value@, expiration: expiration_ms };
        let newvalue = match expiration_ms {
            Some(x) => Value::DataWithTTL { data: value.to_owned(), expiration: x },
            None => Value::Data { data: value.to_owned() },
        };
        let newentry = Entry { key: key.to_owned(), value: newvalue };
        assert(entry_view(newentry) == ev);
        match find_key_index(&self.data, key) {
            Some(i) => {
                proof {
                    lemma_key_idx(s0, key@, i as int);
                }
                self.data.remove(i);
                self.data.insert(i, newentry);
                assert(final(self).entries() =~= s0.update(i as int, ev));
                assert(forall|j: int|
                    0 <= j < s0.len() && j != i ==> final(self).entries()[j] == s0[j]);
            },
            None => {
                self.data.push(newentry);
                assert(final(self).entries() =~= s0.push(ev));
            },
        }
    }

    /// Read `key` at time `now_ms`.  A present, unexpired entry yields
    /// its value; an expired entry is removed and the read misses.
    pub fn get(&mut self, key: &str, now_ms: u64) -> (r: Option<String>)
        requires
            old(self).wf(),
        ensures
            final(self).wf(),
            match spec_get(old(self).entries(), key@) {
                None => r is None && final(self).entries() == old(self).entries(),
                Some(e) => {
                    if live(e, now_ms) {
                        &&& r matches Some(v) && v@ == e.value
                        &&& final(self).entries() == old(self).entries()
                    } else {
                        &&& r is None
                        &&& final(self).entries() == spec_remove(old(self).entries(), key@)
                    }
                },
            },
            final(self).config == old(self).config,
            final(self).info == old(self).info,
            final(self).connected_slaves == old(self).connected_slaves,
    {
        let ghost s0 = entries_view(self.data@);
        match find_key_index(&self.data, key) {
            None => None,
            Some(i) => {
                proof {
                    lemma_key_idx(s0, key@, i as int);
                }
                let (val, expi): (String, Option<u64>) = match &self.data[i].value {
                    Value::Data { data } => (data.clone(), None),
                    Value::DataWithTTL { data, expiration } => (data.clone(), Some(*expiration)),
                };
                assert(s0[i as int].value == val@ && s0[i as int].expiration == expi);
                match expi {
                    None => Some(val),
                    Some(x) => {
                        if x <= now_ms {
                            self.data.remove(i);
                            assert(final(self).entries() =~= s0.remove(i as int));
                            None
                        } else {
                            Some(val)
                        }
                    },
                }
            },
        }
    }

    /// All keys, in store order; the pattern is accepted and ignored.
    pub fn keys(&self, _pattern: &str) -> (r: Vec<String>)
        ensures
            r@.len() == self.entries().len(),
            forall|i: int| 0 <= i < r@.len() ==> r@[i]@ == self.entries()[i].key,
    {
        let n = self.data.len();
        let mut out: Vec<String> = Vec::new();
        let mut i: usize = 0;
        loop
            invariant
                0 <= i <= n,
                n == self.data@.len(),
                out@.len() == i,
                forall|j: int| 0 <= j < i ==> out@[j]@ == entries_view(self.data@)[j].key,
            decreases n - i,
        {
            if i == n {
                return out;
            }
            out.push(self.data[i].key.clone());
            i = i + 1;
        }
    }

    /// A copy of the metadata record.
    pub fn info(&self) -> (r: Info)
        ensures
            r == self.info,
    {
        self.info.clone_info()
    }

    /// Register a new replica: append an empty outbox and return its
    /// index.
    pub fn register_slave(&mut self) -> (idx: usize)
        ensures
            idx == old(self).outboxes().len(),
            final(self).outboxes() == old(self).outboxes().push(Seq::<CmdV>::empty()),
            final(self).data == old(self).data,
            final(self).config == old(self).config,
            final(self).info == old(self).info,
    {
        let idx = self.connected_slaves.len();
        self.connected_slaves.push(Vec::new());
        assert(final(self).outboxes() =~~= old(self).outboxes().push(Seq::<CmdV>::empty()));
        idx
    }

    /// Drain the outbox of replica `i`, leaving it empty.
    pub fn take_outbox(&mut self, i: usize) -> (r: Vec<Cmd>)
        requires
            i < old(self).outboxes().len(),
        ensures
            seq_cmd_view(r@) == old(self).outboxes()[i as int],
            final(self).outboxes() == old(self).outboxes().update(i as int, Seq::<CmdV>::empty()),
            final(self).data == old(self).data,
            final(self).config == old(self).config,
            final(self).info == old(self).info,
    {
        let q = self.connected_slaves.remove(i);
        self.connected_slaves.insert(i, Vec::new());
        assert(final(self).outboxes() =~~= old(self).outboxes().update(
            i as int,
            Seq::<CmdV>::empty(),
        ));
        q
    }

    /// How many replicas are registered.
    pub fn num_replicas(&self) -> (r: usize)
        ensures
            r == self.outboxes().len(),
    {
        self.connected_slaves.len()
    }
}

} // verus!
