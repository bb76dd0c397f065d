//! The key/value store: the only owner of the map, of the count of
//! registered clients and of the count of registered replicas. Each command
//! is handled to completion before the next one, and a write is handed to the
//! replicas before the store takes another command.
use vstd::prelude::*;
use crate::assoc::{
    find, keys_unique, lemma_map_of_contains, lemma_map_of_index, lemma_map_of_push,
    lemma_map_of_remove, lemma_map_of_update, map_of,
};
use crate::text::{ascii, copy_bytes, push_str};
use crate::types::{RedisType, Resp};

verus! {

broadcast use vstd::string::group_string_axioms;

/// What the store answers to a client.
pub enum CommandResponse {
    ClientId(usize),
    Get(Option<RedisType>),
    Keys(RedisType),
    ReplicaCount(usize),
}

/// The messages that the store takes, one at a time.
pub enum StoreCommand {
    InitClient,
    InitReplica,
    SetKey { key: Vec<u8>, value: Vec<u8> },
    SetEx { key: Vec<u8>, value: Vec<u8>, until: u64 },
    Get { id: usize, key: Vec<u8> },
    AllKeys(usize),
    ReplicaCount(usize),
}

/// What handling one command asks of the caller: a response for one client,
/// and bytes for every registered replica.
pub struct StoreEffect {
    pub reply: Option<(usize, CommandResponse)>,
    pub broadcast: Option<Vec<u8>>,
}

/// A stored value, with an absolute deadline in milliseconds since the epoch
/// when it expires.
pub enum StoreValue {
    Permanent(RedisType),
    Expirable { value: RedisType, until: u64 },
}

impl View for StoreValue {
    type V = (Resp, Option<int>);

    open spec fn view(&self) -> (Resp, Option<int>) {
        match self {
            StoreValue::Permanent(v) => (v@, None),
            StoreValue::Expirable { value, until } => (value@, Some(*until as int)),
        }
    }
}

/// An entry is alive at `now` unless its deadline is at or before `now`.
pub open spec fn live(e: (Resp, Option<int>), now: int) -> bool {
    e.1 matches Some(u) ==> now < u
}

/// The entries of `m` that are alive at `now`.
pub open spec fn live_part(m: Map<Seq<u8>, (Resp, Option<int>)>, now: int) -> Map<Seq<u8>, (Resp, Option<int>)> {
    Map::new(|k: Seq<u8>| m.contains_key(k) && live(m[k], now), |k: Seq<u8>| m[k])
}

/// What a read of `key` at `now` returns.
pub open spec fn lookup(m: Map<Seq<u8>, (Resp, Option<int>)>, key: Seq<u8>, now: int) -> Option<Resp> {
    if m.contains_key(key) && live(m[key], now) {
        Some(m[key].0)
    } else {
        None
    }
}

/// The map after a read of `key` at `now`: an expired entry is dropped.
pub open spec fn after_lookup(m: Map<Seq<u8>, (Resp, Option<int>)>, key: Seq<u8>, now: int) -> Map<Seq<u8>, (Resp, Option<int>)> {
    if m.contains_key(key) && !live(m[key], now) {
        m.remove(key)
    } else {
        m
    }
}

pub open spec fn opt_view(o: Option<RedisType>) -> Option<Resp> {
    match o {
        Some(v) => Some(v@),
        None => None,
    }
}

/// An array of bulk strings, one per key, each key once.
pub open spec fn lists_keys(r: Resp, keys: Set<Seq<u8>>) -> bool {
    &&& r is Array
    &&& forall|i: int| 0 <= i < r->Array_0.len() ==> (#[trigger] r->Array_0[i]) is Bulk && keys.contains(r->Array_0[i]->Bulk_0)
    &&& forall|k: Seq<u8>| keys.contains(k) ==> exists|i: int| 0 <= i < r->Array_0.len() && #[trigger] r->Array_0[i] == Resp::Bulk(k)
    &&& forall|i: int, j: int| 0 <= i < j < r->Array_0.len() ==> #[trigger] r->Array_0[i] != #[trigger] r->Array_0[j]
}

/// The command that replays a plain `SET`.
pub open spec fn set_payload(key: Seq<u8>, value: Seq<u8>) -> Resp {
    Resp::Array(seq![Resp::Bulk(ascii("SET"@)), Resp::Bulk(key), Resp::Bulk(value)])
}

/// The command that replays a `SET` with a deadline.
pub open spec fn setex_payload(key: Seq<u8>, value: Seq<u8>, until: int) -> Resp {
    Resp::Array(seq![
        Resp::Bulk(ascii("SET"@)),
        Resp::Bulk(key),
        Resp::Bulk(value),
        Resp::Bulk(ascii("PXAT"@)),
        Resp::Timestamp(until),
    ])
}

/// A bulk string holding an ASCII word.
fn word(s: &str) -> (r: RedisType)
    requires
        s.is_ascii(),
    ensures
        r@ == Resp::Bulk(ascii(s@)),
{
    let mut b: Vec<u8> = Vec::new();
    push_str(&mut b, s);
    assert(b@ =~= ascii(s@));
    RedisType::String(b)
}

fn set_command(key: &[u8], value: &[u8]) -> (r: RedisType)
    ensures
        r@ == set_payload(key@, value@),
{
    proof {
        reveal_strlit("SET");
    }
    let mut v: Vec<RedisType> = Vec::new();
    v.push(word("SET"));
    v.push(RedisType::bulk(key));
    v.push(RedisType::bulk(value));
    let r = RedisType::Array(v);
    assert(r@->Array_0 =~= set_payload(key@, value@)->Array_0);
    r
}

fn setex_command(key: &[u8], value: &[u8], until: u64) -> (r: RedisType)
    ensures
        r@ == setex_payload(key@, value@, until as int),
{
    proof {
        reveal_strlit("SET");
        reveal_strlit("PXAT");
    }
    let mut v: Vec<RedisType> = Vec::new();
    v.push(word("SET"));
    v.push(RedisType::bulk(key));
    v.push(RedisType::bulk(value));
    v.push(word("PXAT"));
    v.push(RedisType::Timestamp(until as u128));
    assert(v@[4]@ == Resp::Timestamp(until as int));
    assert(v@[3]@ == Resp::Bulk(ascii("PXAT"@)));
    let r = RedisType::Array(v);
    assert(r@->Array_0 =~= setex_payload(key@, value@, until as int)->Array_0);
    r
}

/// Relies on `SystemTime::now` and `SystemTime::duration_since`: the current
/// wall-clock time in milliseconds since the epoch. Nothing is known of the value.
#[verifier::external_body]
fn now_millis() -> (r: u64) {
    let now = std::time::SystemTime::now();
    let since = now.duration_since(std::time::UNIX_EPOCH).unwrap_or_default();
    since.as_millis() as u64
}

pub struct Store {
    data: Vec<(Vec<u8>, StoreValue)>,
    clients: usize,
    replicas: usize,
}

impl View for Store {
    type V = Map<Seq<u8>, (Resp, Option<int>)>;

    closed spec fn view(&self) -> Map<Seq<u8>, (Resp, Option<int>)> {
        map_of(self.data@)
    }
}

impl Default for Store {
    fn default() -> (r: Self)
        ensures
            r.wf(),
            r@ == Map::<Seq<u8>, (Resp, Option<int>)>::empty(),
            r.client_count() == 0,
            r.replica_count() == 0,
    {
        Store::new()
    }
}

impl Store {
    /// Keys are unique in the list that holds the map.
    pub closed spec fn wf(&self) -> bool {
        keys_unique(self.data@)
    }

    /// The number of clients registered so far; the next one gets this id.
    pub closed spec fn client_count(&self) -> nat {
        self.clients as nat
    }

    pub closed spec fn replica_count(&self) -> nat {
        self.replicas as nat
    }

    pub fn new() -> (r: Self)
        ensures
            r.wf(),
            r@ == Map::<Seq<u8>, (Resp, Option<int>)>::empty(),
            r.client_count() == 0,
            r.replica_count() == 0,
    {
        let r = Store { data: Vec::new(), clients: 0, replicas: 0 };
        assert(r@ =~= Map::<Seq<u8>, (Resp, Option<int>)>::empty());
        r
    }

    /// Inserts or replaces `key`, with a deadline when `maybe_until` is given.
    pub fn write(&mut self, key: &[u8], value: RedisType, maybe_until: Option<u64>)
        requires
            old(self).wf(),
        ensures
            final(self).wf(),
            final(self)@ == old(self)@.insert(
                key@,
                (value@, match maybe_until {
                    Some(u) => Some(u as int),
                    None => None,
                }),
            ),
            final(self).client_count() == old(self).client_count(),
            final(self).replica_count() == old(self).replica_count(),
    {
        let store_val = match maybe_until {
            Some(until) => StoreValue::Expirable { value, until },
            None => StoreValue::Permanent(value),
        };
        let entry = (copy_bytes(key), store_val);
        match find(&self.data, key) {
            Some(i) => {
                proof {
                    lemma_map_of_update(self.data@, i as int, entry);
                }
                self.data.set(i, entry);
            },
            None => {
                proof {
                    lemma_map_of_push(self.data@, entry);
                }
                self.data.push(entry);
            },
        }
    }

    /// Reads `key` at time `now`; an expired entry reads as absent and is
    /// removed.
    pub fn read_at(&mut self, key: &[u8], now: u64) -> (r: Option<RedisType>)
        requires
            old(self).wf(),
        ensures
            final(self).wf(),
            opt_view(r) == lookup(old(self)@, key@, now as int),
            final(self)@ == after_lookup(old(self)@, key@, now as int),
            final(self).client_count() == old(self).client_count(),
            final(self).replica_count() == old(self).replica_count(),
    {
        match find(&self.data, key) {
            None => None,
            Some(i) => {
                proof {
                    lemma_map_of_index(self.data@, i as int);
                }
                let alive = match &self.data[i].1 {
                    StoreValue::Permanent(_) => true,
                    StoreValue::Expirable { until, .. } => now < *until,
                };
                if alive {
                    match &self.data[i].1 {
                        StoreValue::Permanent(v) => Some(v.duplicate()),
                        StoreValue::Expirable { value, .. } => Some(value.duplicate()),
                    }
                } else {
                    proof {
                        lemma_map_of_remove(self.data@, i as int);
                    }
                    self.data.remove(i);
                    None
                }
            },
        }
    }

    /// Reads `key` now. Whatever the clock says, a value that comes back is
    /// the one stored under `key`, and a missing key reads as absent.
    pub fn read(&mut self, key: &[u8]) -> (r: Option<RedisType>)
        requires
            old(self).wf(),
        ensures
            final(self).wf(),
            r matches Some(v) ==> old(self)@.contains_key(key@) && old(self)@[key@].0 == v@,
            !old(self)@.contains_key(key@) ==> r is None,
            old(self)@.contains_key(key@) && old(self)@[key@].1 is None ==> (r matches Some(v)
                && v@ == old(self)@[key@].0 && final(self)@ == old(self)@),
            final(self)@ == old(self)@ || final(self)@ == old(self)@.remove(key@),
    {
        let now = now_millis();
        self.read_at(key, now)
    }

    /// Drops every entry that has expired at `now`, and lists the keys left.
    pub fn live_keys(&mut self, now: u64) -> (r: Vec<Vec<u8>>)
        requires
            old(self).wf(),
        ensures
            final(self).wf(),
            final(self)@ == live_part(old(self)@, now as int),
            r@.len() == final(self)@.len(),
            forall|i: int| 0 <= i < r@.len() ==> final(self)@.contains_key(#[trigger] r@[i]@),
            forall|k: Seq<u8>| #[trigger] final(self)@.contains_key(k) ==> exists|i: int| 0 <= i < r@.len() && r@[i]@ == k,
            forall|i: int, j: int| 0 <= i < j < r@.len() ==> (#[trigger] r@[i])@ != (#[trigger] r@[j])@,
            final(self).client_count() == old(self).client_count(),
            final(self).replica_count() == old(self).replica_count(),
    {
        let ghost m0 = self@;
        let mut i: usize = 0;
        proof {
            self.lemma_live_part_stable(now as int);
        }
        while i < self.data.len()
            invariant
                keys_unique(self.data@),
                i <= self.data@.len(),
                forall|j: int| 0 <= j < i ==> live((#[trigger] self.data@[j]).1@, now as int),
                live_part(map_of(self.data@), now as int) == live_part(m0, now as int),
                self.clients == old(self).clients,
                self.replicas == old(self).replicas,
            decreases self.data@.len() - i,
        {
            let alive = match &self.data[i].1 {
                StoreValue::Permanent(_) => true,
                StoreValue::Expirable { until, .. } => now < *until,
            };
            if alive {
                i = i + 1;
            } else {
                let ghost before = self.data@;
                proof {
                    lemma_map_of_remove(before, i as int);
                    lemma_map_of_index(before, i as int);
                    assert(live_part(map_of(before.remove(i as int)), now as int) =~= live_part(map_of(before), now as int));
                }
                self.data.remove(i);
                assert forall|j: int| 0 <= j < i implies live((#[trigger] self.data@[j]).1@, now as int) by {
                    assert(self.data@[j] == before[j]);
                }
            }
        }
        proof {
            self.lemma_all_live(now as int);
        }
        let mut r: Vec<Vec<u8>> = Vec::new();
        let mut j: usize = 0;
        while j < self.data.len()
            invariant
                keys_unique(self.data@),
                j <= self.data@.len(),
                r@.len() == j,
                forall|a: int| 0 <= a < j ==> (#[trigger] r@[a])@ == self.data@[a].0@,
            decreases self.data@.len() - j,
        {
            r.push(copy_bytes(self.data[j].0.as_slice()));
            j = j + 1;
        }
        proof {
            assert forall|a: int| 0 <= a < r@.len() implies self@.contains_key(#[trigger] r@[a]@) by {
                lemma_map_of_index(self.data@, a);
            }
            assert forall|k: Seq<u8>| #[trigger] self@.contains_key(k) implies exists|a: int| 0 <= a < r@.len() && r@[a]@ == k by {
                lemma_map_of_contains(self.data@, k);
                let a = choose|a: int| 0 <= a < self.data@.len() && (#[trigger] self.data@[a]).0@ == k;
                assert(r@[a]@ == k);
            }
            assert forall|a: int, b: int| 0 <= a < b < r@.len() implies (#[trigger] r@[a])@ != (#[trigger] r@[b])@ by {
                assert(self.data@[a].0@ != self.data@[b].0@);
            }
            self.lemma_len();
        }
        r
    }

    proof fn lemma_live_part_stable(&self, now: int)
        ensures
            live_part(map_of(self.data@), now) == live_part(self@, now),
    {
    }

    /// When every listed entry is alive, the map is its own live part.
    proof fn lemma_all_live(&self, now: int)
        requires
            keys_unique(self.data@),
            forall|j: int| 0 <= j < self.data@.len() ==> live((#[trigger] self.data@[j]).1@, now),
        ensures
            map_of(self.data@) == live_part(map_of(self.data@), now),
    {
        assert forall|k: Seq<u8>| #[trigger] map_of(self.data@).contains_key(k) implies live(map_of(self.data@)[k], now) by {
            lemma_map_of_contains(self.data@, k);
            let a = choose|a: int| 0 <= a < self.data@.len() && (#[trigger] self.data@[a]).0@ == k;
            lemma_map_of_index(self.data@, a);
        }
        assert(map_of(self.data@) =~= live_part(map_of(self.data@), now));
    }

    /// With unique keys, the map has as many keys as the list has pairs.
    proof fn lemma_len(&self)
        requires
            keys_unique(self.data@),
        ensures
            self@.len() == self.data@.len(),
    {
        lemma_len_of(self.data@);
    }
}

/// Whether a command can be handled: a client id names a registered client,
/// and a count that grows stays within a `usize`.
pub open spec fn accepts(s: Store, cmd: StoreCommand) -> bool {
    match cmd {
        StoreCommand::InitClient => s.client_count() < usize::MAX,
        StoreCommand::InitReplica => s.replica_count() < usize::MAX,
        StoreCommand::Get { id, .. } => id < s.client_count(),
        StoreCommand::AllKeys(id) => id < s.client_count(),
        StoreCommand::ReplicaCount(id) => id < s.client_count(),
        _ => true,
    }
}

/// Bytes for the replicas: the encoding of `payload`, when there is a replica.
pub open spec fn fan_out(s: Store, b: Option<Vec<u8>>, payload: Resp) -> bool {
    if s.replica_count() > 0 {
        b matches Some(bytes) && bytes@ == crate::types::encode(payload)
    } else {
        b is None
    }
}

/// The effect of one command on the store, and what it asks of the caller.
pub open spec fn handled(s: Store, cmd: StoreCommand, now: int, t: Store, r: StoreEffect) -> bool {
    match cmd {
        StoreCommand::InitClient => {
            &&& t@ == s@
            &&& t.client_count() == s.client_count() + 1
            &&& t.replica_count() == s.replica_count()
            &&& r.reply matches Some((id, resp)) && id == s.client_count()
                && resp == CommandResponse::ClientId(id)
            &&& r.broadcast is None
        },
        StoreCommand::InitReplica => {
            &&& t@ == s@
            &&& t.client_count() == s.client_count()
            &&& t.replica_count() == s.replica_count() + 1
            &&& r.reply is None
            &&& r.broadcast is None
        },
        StoreCommand::SetKey { key, value } => {
            &&& t@ == s@.insert(key@, (Resp::Bulk(value@), None))
            &&& t.client_count() == s.client_count()
            &&& t.replica_count() == s.replica_count()
            &&& r.reply is None
            &&& fan_out(s, r.broadcast, set_payload(key@, value@))
        },
        StoreCommand::SetEx { key, value, until } => {
            &&& t@ == s@.insert(key@, (Resp::Bulk(value@), Some(until as int)))
            &&& t.client_count() == s.client_count()
            &&& t.replica_count() == s.replica_count()
            &&& r.reply is None
            &&& fan_out(s, r.broadcast, setex_payload(key@, value@, until as int))
        },
        StoreCommand::Get { id, key } => {
            &&& t@ == after_lookup(s@, key@, now)
            &&& t.client_count() == s.client_count()
            &&& t.replica_count() == s.replica_count()
            &&& r.reply matches Some((to, CommandResponse::Get(v))) && to == id
                && opt_view(v) == lookup(s@, key@, now)
            &&& r.broadcast is None
        },
        StoreCommand::AllKeys(id) => {
            &&& t@ == live_part(s@, now)
            &&& t.client_count() == s.client_count()
            &&& t.replica_count() == s.replica_count()
            &&& r.reply matches Some((to, CommandResponse::Keys(v))) && to == id
                && lists_keys(v@, t@.dom())
            &&& r.broadcast is None
        },
        StoreCommand::ReplicaCount(id) => {
            &&& t@ == s@
            &&& t.client_count() == s.client_count()
            &&& t.replica_count() == s.replica_count()
            &&& r.reply matches Some((to, CommandResponse::ReplicaCount(n))) && to == id
                && n == s.replica_count()
            &&& r.broadcast is None
        },
    }
}

impl Store {
    /// Handles one command: registers a client or a replica, writes (and
    /// hands the write to the replicas first), reads, or lists.
    pub fn handle(&mut self, cmd: StoreCommand, now: u64) -> (r: StoreEffect)
        requires
            old(self).wf(),
            accepts(*old(self), cmd),
        ensures
            final(self).wf(),
            handled(*old(self), cmd, now as int, *final(self), r),
    {
        match cmd {
            StoreCommand::InitClient => {
                let id = self.clients;
                self.clients = self.clients + 1;
                StoreEffect { reply: Some((id, CommandResponse::ClientId(id))), broadcast: None }
            },
            StoreCommand::InitReplica => {
                self.replicas = self.replicas + 1;
                StoreEffect { reply: None, broadcast: None }
            },
            StoreCommand::SetKey { key, value } => {
                let broadcast = if self.replicas > 0 {
                    Some(set_command(key.as_slice(), value.as_slice()).to_vec())
                } else {
                    None
                };
                self.write(key.as_slice(), RedisType::String(value), None);
                StoreEffect { reply: None, broadcast }
            },
            StoreCommand::SetEx { key, value, until } => {
                let broadcast = if self.replicas > 0 {
                    Some(setex_command(key.as_slice(), value.as_slice(), until).to_vec())
                } else {
                    None
                };
                self.write(key.as_slice(), RedisType::String(value), Some(until));
                StoreEffect { reply: None, broadcast }
            },
            StoreCommand::Get { id, key } => {
                let v = self.read_at(key.as_slice(), now);
                StoreEffect { reply: Some((id, CommandResponse::Get(v))), broadcast: None }
            },
            StoreCommand::AllKeys(id) => {
                let keys = self.live_keys(now);
                let mut items: Vec<RedisType> = Vec::new();
                let mut i: usize = 0;
                while i < keys.len()
                    invariant
                        i <= keys@.len(),
                        items@.len() == i,
                        forall|a: int| 0 <= a < i ==> (#[trigger] items@[a])@ == Resp::Bulk(keys@[a]@),
                    decreases keys@.len() - i,
                {
                    items.push(RedisType::bulk(keys[i].as_slice()));
                    i = i + 1;
                }
                let v = RedisType::Array(items);
                proof {
                    let xs = v@->Array_0;
                    assert(xs.len() == keys@.len());
                    assert forall|a: int| 0 <= a < xs.len() implies #[trigger] xs[a] == Resp::Bulk(keys@[a]@) by {
                        assert(xs[a] == items@[a]@);
                    }
                    assert forall|k: Seq<u8>| self@.dom().contains(k) implies exists|a: int| 0 <= a < xs.len() && #[trigger] xs[a] == Resp::Bulk(k) by {
                        assert(self@.contains_key(k));
                        let a = choose|a: int| 0 <= a < keys@.len() && keys@[a]@ == k;
                        assert(xs[a] == Resp::Bulk(k));
                    }
                    assert forall|a: int, b: int| 0 <= a < b < xs.len() implies #[trigger] xs[a] != #[trigger] xs[b] by {
                        assert(keys@[a]@ != keys@[b]@);
                    }
                }
                StoreEffect { reply: Some((id, CommandResponse::Keys(v))), broadcast: None }
            },
            StoreCommand::ReplicaCount(id) => {
                StoreEffect { reply: Some((id, CommandResponse::ReplicaCount(self.replicas))), broadcast: None }
            },
        }
    }
}

proof fn lemma_len_of(s: Seq<(Vec<u8>, StoreValue)>)
    requires
        keys_unique(s),
    ensures
        map_of(s).dom().finite(),
        map_of(s).len() == s.len(),
    decreases s.len(),
{
    if s.len() > 0 {
        let d = s.drop_last();
        assert(keys_unique(d)) by {
            assert forall|a: int, b: int| 0 <= a < b < d.len() implies (#[trigger] d[a]).0@ != (#[trigger] d[b]).0@ by {
                assert(d[a] == s[a] && d[b] == s[b]);
            }
        }
        lemma_len_of(d);
        lemma_map_of_contains(d, s.last().0@);
        if map_of(d).contains_key(s.last().0@) {
            let a = choose|a: int| 0 <= a < d.len() && (#[trigger] d[a]).0@ == s.last().0@;
            assert(d[a] == s[a]);
        }
    }
}

} // verus!

verus! {

/// After `SET k v`, a `GET k` answers `v`.
pub proof fn law_set_then_get(
    s0: Store,
    s1: Store,
    s2: Store,
    set: StoreCommand,
    get: StoreCommand,
    now1: int,
    now2: int,
    r1: StoreEffect,
    r2: StoreEffect,
)
    requires
        set matches StoreCommand::SetKey { key, value },
        get matches StoreCommand::Get { id, key: k2 },
        get->Get_key@ == set->SetKey_key@,
        handled(s0, set, now1, s1, r1),
        handled(s1, get, now2, s2, r2),
    ensures
        r2.reply matches Some((_, CommandResponse::Get(Some(v)))) && v@ == Resp::Bulk(set->SetKey_value@),
{
}

/// After `SET k v` and `SET k v2`, a `GET k` answers `v2`.
pub proof fn law_set_overwrites(
    s0: Store,
    s1: Store,
    s2: Store,
    s3: Store,
    first: StoreCommand,
    second: StoreCommand,
    get: StoreCommand,
    now1: int,
    now2: int,
    now3: int,
    r1: StoreEffect,
    r2: StoreEffect,
    r3: StoreEffect,
)
    requires
        first is SetKey,
        second is SetKey,
        get is Get,
        second->SetKey_key@ == first->SetKey_key@,
        get->Get_key@ == first->SetKey_key@,
        handled(s0, first, now1, s1, r1),
        handled(s1, second, now2, s2, r2),
        handled(s2, get, now3, s3, r3),
    ensures
        r3.reply matches Some((_, CommandResponse::Get(Some(v)))) && v@ == Resp::Bulk(second->SetKey_value@),
{
}

/// A key written with a deadline reads as absent once the deadline has come,
/// and the read removes it, so a later listing of the keys leaves it out.
pub proof fn law_expired_key_is_gone(
    s0: Store,
    s1: Store,
    s2: Store,
    s3: Store,
    set: StoreCommand,
    get: StoreCommand,
    list: StoreCommand,
    now1: int,
    now2: int,
    now3: int,
    r1: StoreEffect,
    r2: StoreEffect,
    r3: StoreEffect,
)
    requires
        set is SetEx,
        get is Get,
        list is AllKeys,
        get->Get_key@ == set->SetEx_key@,
        now2 >= set->SetEx_until,
        handled(s0, set, now1, s1, r1),
        handled(s1, get, now2, s2, r2),
        handled(s2, list, now3, s3, r3),
    ensures
        r2.reply matches Some((_, CommandResponse::Get(None))),
        !s3@.contains_key(set->SetEx_key@),
        r3.reply matches Some((_, CommandResponse::Keys(ks))) && !(ks@->Array_0).contains(
            Resp::Bulk(set->SetEx_key@),
        ),
{
    let k = set->SetEx_key@;
    assert(!s2@.contains_key(k));
    if let Some((_, CommandResponse::Keys(ks))) = r3.reply {
        if (ks@->Array_0).contains(Resp::Bulk(k)) {
            let i = choose|i: int| 0 <= i < ks@->Array_0.len() && ks@->Array_0[i] == Resp::Bulk(k);
            assert(s3@.dom().contains(ks@->Array_0[i]->Bulk_0));
        }
    }
}

} // verus!
