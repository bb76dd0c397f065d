//! A server that owns its store and configuration and serves one client's
//! commands in turn, with no tasks or channels in between.
use vstd::prelude::*;
use crate::client::{planned, psync_bytes, config_completed, store_completed, Action, Client};
use crate::config::{answered, Configuration};
use crate::io::byte_views;
use crate::replica::replid;
use crate::store::{accepts, handled, Store, StoreCommand, StoreEffect};
use crate::types::{RedisType, Resp};

verus! {

pub struct RedisServer {
    store: Store,
    config: Configuration,
    client: Client,
}

/// What serving the planned action `a` does to the server, and the bytes it
/// writes.
pub open spec fn served(s: RedisServer, a: Action, now: int, t: RedisServer, out: Seq<u8>) -> bool {
    &&& t.config_spec() == s.config_spec()
    &&& t.client_id() == s.client_id()
    &&& match a {
        Action::Reply(x) => out == x@ && t.store_spec() == s.store_spec(),
        Action::Write(c, ok) => out == ok@ && exists|e: StoreEffect| handled(s.store_spec(), c, now, t.store_spec(), e),
        Action::Store(c, then) => exists|e: StoreEffect| #[trigger] handled(s.store_spec(), c, now, t.store_spec(), e)
            && (e.reply matches Some((_, resp)) && store_completed(then, resp, out)),
        Action::Config(c, then) => t.store_spec() == s.store_spec() && exists|ans| #[trigger] answered(s.config_spec(), c, ans)
            && config_completed(then, ans, out),
        Action::Psync => out == psync_bytes(replid()) && t.store_spec() == s.store_spec(),
    }
}

impl RedisServer {
    pub closed spec fn store_spec(&self) -> Store {
        self.store
    }

    pub closed spec fn config_spec(&self) -> Configuration {
        self.config
    }

    pub closed spec fn client_id(&self) -> usize {
        self.client.id
    }

    pub closed spec fn wf(&self) -> bool {
        &&& self.store.wf()
        &&& self.config.wf()
        &&& self.client.id < self.store.client_count()
    }

    /// A server with an empty store and the given configuration.
    pub fn new(config: Configuration) -> (r: Self)
        requires
            config.wf(),
        ensures
            r.wf(),
            r.config_spec() == config,
            r.store_spec()@ == Map::<Seq<u8>, (Resp, Option<int>)>::empty(),
    {
        let mut store = Store::new();
        let effect = store.handle(StoreCommand::InitClient, 0);
        let id = match effect.reply {
            Some((id, _)) => id,
            None => 0,
        };
        RedisServer { store, config, client: Client { id } }
    }

    /// Writes a value, with a deadline when `expire_at` is given.
    pub fn write(&mut self, key: &[u8], value: RedisType, expire_at: Option<u64>)
        requires
            old(self).wf(),
        ensures
            final(self).wf(),
            final(self).config_spec() == old(self).config_spec(),
            final(self).store_spec()@ == old(self).store_spec()@.insert(
                key@,
                (value@, match expire_at {
                    Some(u) => Some(u as int),
                    None => None,
                }),
            ),
    {
        self.store.write(key, value, expire_at);
    }

    /// Serves one command at time `now` and returns the bytes of the reply.
    pub fn dispatch(&mut self, cmd: &Vec<Vec<u8>>, now: u64) -> (r: Vec<u8>)
        requires
            old(self).wf(),
        ensures
            final(self).wf(),
            exists|a: Action| #[trigger] planned(old(self).client_id(), byte_views(cmd@), now as int, a)
                && served(*old(self), a, now as int, *final(self), r@),
    {
        let action = self.client.dispatch(cmd, now);
        let ghost plan = action;
        let ghost s0 = *self;
        assert(planned(s0.client_id(), byte_views(cmd@), now as int, plan));
        match action {
            Action::Reply(bytes) => {
                assert(served(s0, plan, now as int, *self, bytes@));
                bytes
            },
            Action::Write(c, ok) => {
                let ghost gc = c;
                let e = self.store.handle(c, now);
                assert(handled(s0.store_spec(), gc, now as int, self.store_spec(), e));
                assert(served(s0, plan, now as int, *self, ok@));
                ok
            },
            Action::Store(c, then) => {
                let ghost gc = c;
                let e = self.store.handle(c, now);
                assert(handled(s0.store_spec(), gc, now as int, self.store_spec(), e));
                match e.reply {
                    Some((_, resp)) => {
                        let out = Client::complete_store(&then, &resp);
                        assert(served(s0, plan, now as int, *self, out@));
                        out
                    },
                    None => {
                        assert(false);
                        Vec::new()
                    },
                }
            },
            Action::Config(c, then) => {
                let ans = self.config.answer(&c);
                let out = Client::complete_config(&then, &ans);
                assert(answered(s0.config_spec(), c, ans));
                assert(served(s0, plan, now as int, *self, out@));
                out
            },
            Action::Psync => {
                let id = self.config.replica_info().digest_string();
                let out = Client::handle_psync(id.as_slice());
                assert(served(s0, plan, now as int, *self, out@));
                out
            },
        }
    }
}

} // verus!
