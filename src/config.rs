//! The server configuration: a map from a closed set of names to values, and
//! the server's replication identity. Only the configuration task changes it.
use vstd::prelude::*;
use crate::assoc::{
    find, keys_unique, lemma_map_of_contains, lemma_map_of_index, lemma_map_of_push,
    lemma_map_of_update, map_of,
};
use crate::info;
use crate::replica::ReplicaInfo;
use crate::text::{ascii, bytes_eq, copy_bytes, lit, push_all};

verus! {

broadcast use vstd::string::group_string_axioms;

/// The names that the configuration accepts.
pub open spec fn acceptable(k: Seq<u8>) -> bool {
    ||| k == ascii("bind-source-addr"@)
    ||| k == ascii("dbfilename"@)
    ||| k == ascii("dir"@)
    ||| k == ascii("port"@)
    ||| k == ascii("replicaof"@)
    ||| k == ascii("master_replid"@)
}

/// The configuration that a server starts from.
pub open spec fn default_map() -> Map<Seq<u8>, Seq<u8>> {
    map![
        ascii("bind-source-addr"@) => ascii("127.0.0.1"@),
        ascii("dbfilename"@) => ascii("dump.rdb"@),
        ascii("dir"@) => ascii("."@),
        ascii("port"@) => ascii("6379"@),
    ]
}

/// A request to the configuration task.
pub enum ConfigCommand {
    Get { items: Vec<Vec<u8>> },
    AllInfo,
    InfoOn { sections: Vec<Vec<u8>> },
    ReplicaDigest,
}

/// The configuration task's answer to a request.
pub enum ConfigReply {
    Values(Vec<Vec<u8>>),
    Info(Vec<u8>),
    Sections(Vec<Vec<u8>>),
    Digest(Vec<u8>),
}

#[derive(PartialEq, Eq, Debug)]
pub enum ConfigError {
    UnknownKey(Vec<u8>),
    MissingAddress,
}

/// For each requested name that is set, the name and then its value.
pub open spec fn config_values(m: Map<Seq<u8>, Seq<u8>>, items: Seq<Seq<u8>>) -> Seq<Seq<u8>>
    decreases items.len(),
{
    if items.len() == 0 {
        seq![]
    } else {
        let k = items.last();
        config_values(m, items.drop_last()) + if m.contains_key(k) {
            seq![k, m[k]]
        } else {
            seq![]
        }
    }
}

/// The configuration after setting `pairs` in order, stopping at the first
/// name that is not accepted; that name comes back with it.
pub open spec fn apply_pairs(m: Map<Seq<u8>, Seq<u8>>, pairs: Seq<(Seq<u8>, Seq<u8>)>) -> (Map<Seq<u8>, Seq<u8>>, Option<Seq<u8>>)
    decreases pairs.len(),
{
    if pairs.len() == 0 {
        (m, None)
    } else if !acceptable(pairs[0].0) {
        (m, Some(pairs[0].0))
    } else {
        apply_pairs(m.insert(pairs[0].0, pairs[0].1), pairs.drop_first())
    }
}

/// The answer of the configuration `c` to the request `cmd`.
pub open spec fn answered(c: Configuration, cmd: ConfigCommand, r: ConfigReply) -> bool {
    match cmd {
        ConfigCommand::Get { items } => r matches ConfigReply::Values(v)
            && crate::io::byte_views(v@) == config_values(c@, crate::io::byte_views(items@)),
        ConfigCommand::AllInfo => r matches ConfigReply::Info(t) && t@ == info::all_info_text(c),
        ConfigCommand::InfoOn { sections } => r matches ConfigReply::Sections(v)
            && crate::io::byte_views(v@) == info::rendered(c, crate::io::byte_views(sections@)),
        ConfigCommand::ReplicaDigest => r matches ConfigReply::Digest(d) && d@ == crate::replica::replid(),
    }
}

pub struct Configuration {
    store: Vec<(Vec<u8>, Vec<u8>)>,
    replica: ReplicaInfo,
}

impl View for Configuration {
    type V = Map<Seq<u8>, Seq<u8>>;

    closed spec fn view(&self) -> Map<Seq<u8>, Seq<u8>> {
        map_of(self.store@)
    }
}

fn is_acceptable(key: &[u8]) -> (r: bool)
    ensures
        r == acceptable(key@),
{
    proof {
        reveal_strlit("bind-source-addr");
        reveal_strlit("dbfilename");
        reveal_strlit("dir");
        reveal_strlit("port");
        reveal_strlit("replicaof");
        reveal_strlit("master_replid");
    }
    bytes_eq(key, lit("bind-source-addr").as_slice()) || bytes_eq(key, lit("dbfilename").as_slice())
        || bytes_eq(key, lit("dir").as_slice()) || bytes_eq(key, lit("port").as_slice())
        || bytes_eq(key, lit("replicaof").as_slice()) || bytes_eq(key, lit("master_replid").as_slice())
}

impl Default for Configuration {
    fn default() -> (r: Self)
        ensures
            r.wf(),
            r@ == default_map(),
            r.replica_info_spec().spec_offset() == 0,
    {
        proof {
            reveal_strlit("bind-source-addr");
            reveal_strlit("dbfilename");
            reveal_strlit("dir");
            reveal_strlit("port");
            reveal_strlit("127.0.0.1");
            reveal_strlit("dump.rdb");
            reveal_strlit(".");
            reveal_strlit("6379");
        }
        let mut c = Configuration::new();
        let _ = c.update(lit("bind-source-addr"), lit("127.0.0.1"));
        let _ = c.update(lit("dbfilename"), lit("dump.rdb"));
        let _ = c.update(lit("dir"), lit("."));
        let _ = c.update(lit("port"), lit("6379"));
        assert(c@ =~= default_map());
        c
    }
}

impl Configuration {
    /// Keys are unique, and each is an accepted name.
    pub closed spec fn wf(&self) -> bool {
        &&& keys_unique(self.store@)
        &&& forall|k: Seq<u8>| #[trigger] map_of(self.store@).contains_key(k) ==> acceptable(k)
    }

    pub closed spec fn replica_info_spec(&self) -> ReplicaInfo {
        self.replica
    }

    /// This server follows a master.
    pub open spec fn replica_spec(&self) -> bool {
        self@.contains_key(ascii("replicaof"@))
    }

    /// An empty configuration.
    pub fn new() -> (r: Self)
        ensures
            r.wf(),
            r@ == Map::<Seq<u8>, Seq<u8>>::empty(),
            r.replica_info_spec().spec_offset() == 0,
    {
        let r = Configuration { store: Vec::new(), replica: ReplicaInfo::new() };
        assert(r@ =~= Map::<Seq<u8>, Seq<u8>>::empty());
        r
    }

    /// Sets an accepted name, handing back its previous value; any other name
    /// is refused and nothing changes.
    pub fn update(&mut self, key: Vec<u8>, value: Vec<u8>) -> (r: Result<Option<Vec<u8>>, ConfigError>)
        requires
            old(self).wf(),
        ensures
            final(self).wf(),
            final(self).replica_info_spec() == old(self).replica_info_spec(),
            acceptable(key@) ==> final(self)@ == old(self)@.insert(key@, value@),
            acceptable(key@) ==> (r matches Ok(prev) && match prev {
                Some(p) => old(self)@.contains_key(key@) && p@ == old(self)@[key@],
                None => !old(self)@.contains_key(key@),
            }),
            !acceptable(key@) ==> final(self)@ == old(self)@ && r == Err::<Option<Vec<u8>>, ConfigError>(
                ConfigError::UnknownKey(key),
            ),
    {
        if !is_acceptable(key.as_slice()) {
            return Err(ConfigError::UnknownKey(key));
        }
        let ghost k = key@;
        let ghost v = value@;
        match find(&self.store, key.as_slice()) {
            Some(i) => {
                proof {
                    lemma_map_of_index(self.store@, i as int);
                    lemma_map_of_update(self.store@, i as int, (key, value));
                }
                let prev = copy_bytes(self.store[i].1.as_slice());
                self.store.set(i, (key, value));
                assert forall|q: Seq<u8>| #[trigger] map_of(self.store@).contains_key(q) implies acceptable(q) by {
                    if q != k {
                        assert(map_of(old(self).store@).contains_key(q));
                    }
                }
                Ok(Some(prev))
            },
            None => {
                proof {
                    lemma_map_of_push(self.store@, (key, value));
                }
                self.store.push((key, value));
                assert forall|q: Seq<u8>| #[trigger] map_of(self.store@).contains_key(q) implies acceptable(q) by {
                    if q != k {
                        assert(map_of(old(self).store@).contains_key(q));
                    }
                }
                Ok(None)
            },
        }
    }

    /// Sets the pairs in order; stops at the first name that is refused.
    pub fn bulk_update(&mut self, pairs: Vec<(Vec<u8>, Vec<u8>)>) -> (r: Result<(), ConfigError>)
        requires
            old(self).wf(),
        ensures
            final(self).wf(),
            final(self).replica_info_spec() == old(self).replica_info_spec(),
            final(self)@ == apply_pairs(old(self)@, pairs@.map_values(|p: (Vec<u8>, Vec<u8>)| (p.0@, p.1@))).0,
            match apply_pairs(old(self)@, pairs@.map_values(|p: (Vec<u8>, Vec<u8>)| (p.0@, p.1@))).1 {
                None => r is Ok,
                Some(k) => r matches Err(ConfigError::UnknownKey(b)) && b@ == k,
            },
    {
        let ghost ps = pairs@.map_values(|p: (Vec<u8>, Vec<u8>)| (p.0@, p.1@));
        let mut i: usize = 0;
        assert(ps.skip(0) =~= ps);
        while i < pairs.len()
            invariant
                self.wf(),
                self.replica_info_spec() == old(self).replica_info_spec(),
                i <= pairs@.len(),
                ps == pairs@.map_values(|p: (Vec<u8>, Vec<u8>)| (p.0@, p.1@)),
                apply_pairs(old(self)@, ps) == apply_pairs(self@, ps.skip(i as int)),
            decreases pairs@.len() - i,
        {
            let key = copy_bytes(pairs[i].0.as_slice());
            let value = copy_bytes(pairs[i].1.as_slice());
            let ghost before = self@;
            assert(ps.skip(i as int)[0] == (key@, value@));
            assert(ps.skip(i as int).drop_first() =~= ps.skip(i + 1));
            match self.update(key, value) {
                Err(e) => {
                    return Err(e);
                },
                Ok(_) => {},
            }
            i = i + 1;
        }
        assert(ps.skip(i as int) =~= Seq::<(Seq<u8>, Seq<u8>)>::empty());
        Ok(())
    }

    pub fn get(&self, key: &[u8]) -> (r: Option<Vec<u8>>)
        requires
            self.wf(),
        ensures
            match r {
                Some(v) => self@.contains_key(key@) && v@ == self@[key@],
                None => !self@.contains_key(key@),
            },
    {
        match find(&self.store, key) {
            Some(i) => {
                proof {
                    lemma_map_of_index(self.store@, i as int);
                }
                Some(copy_bytes(self.store[i].1.as_slice()))
            },
            None => None,
        }
    }

    /// `<bind-source-addr>:<port>`.
    pub fn get_binding_address(&self) -> (r: Result<Vec<u8>, ConfigError>)
        requires
            self.wf(),
        ensures
            self@.contains_key(ascii("bind-source-addr"@)) && self@.contains_key(ascii("port"@)) ==> (r matches Ok(a)
                && a@ == self@[ascii("bind-source-addr"@)] + seq![58u8] + self@[ascii("port"@)]),
            !(self@.contains_key(ascii("bind-source-addr"@)) && self@.contains_key(ascii("port"@))) ==> r
                == Err::<Vec<u8>, ConfigError>(ConfigError::MissingAddress),
    {
        proof {
            reveal_strlit("bind-source-addr");
            reveal_strlit("port");
        }
        let addr = self.get(lit("bind-source-addr").as_slice());
        let port = self.get(lit("port").as_slice());
        match (addr, port) {
            (Some(mut a), Some(p)) => {
                let ghost a0 = a@;
                a.push(58);
                push_all(&mut a, p.as_slice());
                assert(a@ =~= a0 + seq![58u8] + p@);
                Ok(a)
            },
            _ => Err(ConfigError::MissingAddress),
        }
    }

    /// The pairs of the configuration.
    pub fn as_hash(&self) -> (r: Vec<(Vec<u8>, Vec<u8>)>)
        requires
            self.wf(),
        ensures
            keys_unique(r@),
            map_of(r@) == self@,
    {
        let mut r: Vec<(Vec<u8>, Vec<u8>)> = Vec::new();
        let mut i: usize = 0;
        while i < self.store.len()
            invariant
                keys_unique(self.store@),
                i <= self.store@.len(),
                keys_unique(r@),
                map_of(r@) == map_of(self.store@.take(i as int)),
            decreases self.store@.len() - i,
        {
            let ghost t = self.store@.take(i as int);
            let pair = (copy_bytes(self.store[i].0.as_slice()), copy_bytes(self.store[i].1.as_slice()));
            proof {
                lemma_map_of_contains(r@, pair.0@);
                lemma_map_of_contains(t, pair.0@);
                if map_of(t).contains_key(pair.0@) {
                    let a = choose|a: int| 0 <= a < t.len() && (#[trigger] t[a]).0@ == pair.0@;
                    assert(self.store@[a] == t[a]);
                }
                lemma_map_of_push(r@, pair);
                assert(self.store@.take(i + 1).drop_last() =~= t);
            }
            r.push(pair);
            i = i + 1;
        }
        assert(self.store@.take(i as int) =~= self.store@);
        r
    }

    pub fn is_replica(&self) -> (r: bool)
        requires
            self.wf(),
        ensures
            r == self.replica_spec(),
    {
        proof {
            reveal_strlit("replicaof");
        }
        self.get(lit("replicaof").as_slice()).is_some()
    }

    pub fn replica_info(&self) -> (r: &ReplicaInfo)
        ensures
            *r == self.replica_info_spec(),
    {
        &self.replica
    }

    /// Answers one request of the configuration task.
    pub fn answer(&self, cmd: &ConfigCommand) -> (r: ConfigReply)
        requires
            self.wf(),
        ensures
            answered(*self, *cmd, r),
    {
        match cmd {
            ConfigCommand::Get { items } => {
                let mut values: Vec<Vec<u8>> = Vec::new();
                let mut i: usize = 0;
                while i < items.len()
                    invariant
                        self.wf(),
                        i <= items@.len(),
                        crate::io::byte_views(values@) == config_values(self@, crate::io::byte_views(items@.take(i as int))),
                    decreases items@.len() - i,
                {
                    let ghost before = values@;
                    assert(crate::io::byte_views(items@.take(i + 1)).drop_last() =~= crate::io::byte_views(items@.take(i as int)));
                    match self.get(items[i].as_slice()) {
                        Some(v) => {
                            values.push(copy_bytes(items[i].as_slice()));
                            values.push(v);
                        },
                        None => {},
                    }
                    i = i + 1;
                    assert(crate::io::byte_views(values@) =~= config_values(self@, crate::io::byte_views(items@.take(i as int))));
                }
                assert(items@.take(i as int) =~= items@);
                ConfigReply::Values(values)
            },
            ConfigCommand::AllInfo => ConfigReply::Info(info::all_info(self)),
            ConfigCommand::InfoOn { sections } => ConfigReply::Sections(info::render_sections(self, sections)),
            ConfigCommand::ReplicaDigest => ConfigReply::Digest(self.replica.digest_string()),
        }
    }
}

} // verus!
