//! The replication identity of a server, and the replica side of replication:
//! the handshake with the master and the handling of the write stream.
use vstd::prelude::*;
use crate::client::bulks;
use crate::common_cli_rep::{handle_set, set_outcome, CommandError};
use crate::io::{byte_views, Command};
use crate::store::StoreCommand;
use crate::text::{ascii, bytes_eq, decimal, eq_ignore_case, hex, hex_string, lit, lower, push_decimal};
use crate::types::{encode, RedisType, Resp};

verus! {

/// The SHA-1 digest of a byte string.
pub uninterp spec fn sha1_of(data: Seq<u8>) -> Seq<u8>;

/// Relies on `sha1::Sha1` through `digest::Digest::digest`: the SHA-1 digest of
/// `data`, which is 20 bytes long.
#[verifier::external_body]
fn sha1_digest(data: &[u8]) -> (r: Vec<u8>)
    ensures
        r@ == sha1_of(data@),
        r@.len() == 20,
{
    <sha1::Sha1 as sha1::Digest>::digest(data).to_vec()
}

/// The replication id of this server: the hexadecimal SHA-1 digest of its
/// (empty) replication stream seed.
pub open spec fn replid() -> Seq<u8> {
    hex(sha1_of(Seq::empty()))
}

/// The identity that a master shows to its replicas.
#[derive(Clone, Copy)]
pub struct ReplicaInfo {
    offset: usize,
}

impl ReplicaInfo {
    pub closed spec fn spec_offset(&self) -> nat {
        self.offset as nat
    }

    pub fn new() -> (r: Self)
        ensures
            r.spec_offset() == 0,
    {
        ReplicaInfo { offset: 0 }
    }

    /// The replication id, as 40 lower-case hexadecimal digits.
    pub fn digest_string(&self) -> (r: Vec<u8>)
        ensures
            r@ == replid(),
            r@.len() == 40,
    {
        let seed: Vec<u8> = Vec::new();
        let d = sha1_digest(seed.as_slice());
        assert(seed@ =~= Seq::<u8>::empty());
        let r = hex_string(d.as_slice());
        proof {
            lemma_hex_len(d@);
        }
        r
    }

    pub fn offset(&self) -> (r: usize)
        ensures
            r == self.spec_offset(),
    {
        self.offset
    }
}

proof fn lemma_hex_len(b: Seq<u8>)
    ensures
        hex(b).len() == 2 * b.len(),
    decreases b.len(),
{
    if b.len() > 0 {
        lemma_hex_len(b.drop_last());
    }
}

/// The bytes of a command made of the given words.
pub open spec fn command_bytes(words: Seq<Seq<u8>>) -> Seq<u8> {
    encode(Resp::Array(bulks(words)))
}

/// The steps of the handshake of a replica with its master.
#[derive(PartialEq, Eq, Structural, Debug, Clone, Copy)]
pub enum HandshakeState {
    Connecting,
    PingSent,
    Replconf1,
    Replconf2,
    PsyncSent,
    Snapshot,
    Streaming,
    Terminated,
}

/// What happened on the link to the master.
pub enum HandshakeEvent {
    Connected,
    /// A line came, without its terminator.
    Line(Vec<u8>),
    /// No line came in time.
    Timeout,
    ReadError,
    /// The snapshot was read and dropped.
    SnapshotRead,
}

/// The next step of the handshake and, if any, the command to send.
pub open spec fn handshake_next(s: HandshakeState, e: HandshakeEvent, port: Seq<u8>) -> (HandshakeState, Option<Seq<u8>>) {
    let ping = command_bytes(seq![ascii("PING"@)]);
    let listen = command_bytes(seq![ascii("REPLCONF"@), ascii("listening-port"@), port]);
    let capa = command_bytes(seq![ascii("REPLCONF"@), ascii("capa"@), ascii("psync2"@)]);
    let psync = command_bytes(seq![ascii("PSYNC"@), ascii("?"@), ascii("-1"@)]);
    match (s, e) {
        (HandshakeState::Connecting, HandshakeEvent::Connected) => (HandshakeState::PingSent, Some(ping)),
        (HandshakeState::PingSent, HandshakeEvent::Line(l)) => if l@ == ascii("+PONG"@) {
            (HandshakeState::Replconf1, Some(listen))
        } else {
            (HandshakeState::Terminated, None)
        },
        (HandshakeState::Replconf1, HandshakeEvent::Line(l)) => if l@ == ascii("+OK"@) {
            (HandshakeState::Replconf2, Some(capa))
        } else {
            (HandshakeState::Terminated, None)
        },
        (HandshakeState::Replconf1, HandshakeEvent::Timeout) => (HandshakeState::Replconf2, Some(capa)),
        (HandshakeState::Replconf1, HandshakeEvent::ReadError) => (HandshakeState::Replconf2, Some(capa)),
        (HandshakeState::Replconf2, HandshakeEvent::Line(l)) => if l@ == ascii("+OK"@) {
            (HandshakeState::PsyncSent, Some(psync))
        } else {
            (HandshakeState::Terminated, None)
        },
        (HandshakeState::Replconf2, HandshakeEvent::Timeout) => (HandshakeState::PsyncSent, Some(psync)),
        (HandshakeState::Replconf2, HandshakeEvent::ReadError) => (HandshakeState::PsyncSent, Some(psync)),
        (HandshakeState::PsyncSent, HandshakeEvent::Line(l)) => if l@.len() >= 11 && l@.take(11) == ascii("+FULLRESYNC"@) {
            (HandshakeState::Snapshot, None)
        } else {
            (HandshakeState::Terminated, None)
        },
        (HandshakeState::Snapshot, HandshakeEvent::SnapshotRead) => (HandshakeState::Streaming, None),
        _ => (HandshakeState::Terminated, None),
    }
}

/// The position of a step in the handshake.
pub open spec fn rank(s: HandshakeState) -> nat {
    match s {
        HandshakeState::Connecting => 0,
        HandshakeState::PingSent => 1,
        HandshakeState::Replconf1 => 2,
        HandshakeState::Replconf2 => 3,
        HandshakeState::PsyncSent => 4,
        HandshakeState::Snapshot => 5,
        HandshakeState::Streaming => 6,
        HandshakeState::Terminated => 7,
    }
}

/// The handshake only moves forward: every event leads to a later step, or
/// ends it; nothing leads out of the end.
pub proof fn law_handshake_moves_forward(s: HandshakeState, e: HandshakeEvent, port: Seq<u8>)
    ensures
        rank(handshake_next(s, e, port).0) > rank(s) || handshake_next(s, e, port).0 == HandshakeState::Terminated,
        s == HandshakeState::Terminated ==> handshake_next(s, e, port).0 == HandshakeState::Terminated,
{
}

/// What a command from the master asks of the replica.
pub enum ReplicaAction {
    /// Apply this write to the local store, without a reply.
    Forward(StoreCommand),
    /// Send these bytes to the master.
    Reply(Vec<u8>),
    /// Nothing to do.
    Nothing,
    /// A command the replica does not take.
    Ignored,
}

/// The words of a command as bytes to send.
fn command(words: &Vec<Vec<u8>>) -> (r: Vec<u8>)
    ensures
        r@ == command_bytes(byte_views(words@)),
{
    let mut v: Vec<RedisType> = Vec::new();
    let mut i: usize = 0;
    while i < words.len()
        invariant
            i <= words@.len(),
            v@.len() == i,
            forall|j: int| 0 <= j < i ==> (#[trigger] v@[j])@ == Resp::Bulk(words@[j]@),
        decreases words@.len() - i,
    {
        v.push(RedisType::bulk(words[i].as_slice()));
        i = i + 1;
    }
    let a = RedisType::Array(v);
    assert(a@->Array_0 =~= bulks(byte_views(words@)));
    a.to_vec()
}

fn words1(a: &str) -> (r: Vec<Vec<u8>>)
    requires
        a.is_ascii(),
    ensures
        byte_views(r@) == seq![ascii(a@)],
{
    let mut r: Vec<Vec<u8>> = Vec::new();
    r.push(lit(a));
    assert(byte_views(r@) =~= seq![ascii(a@)]);
    r
}

fn words3(a: &str, b: &str, c: Vec<u8>) -> (r: Vec<Vec<u8>>)
    requires
        a.is_ascii(),
        b.is_ascii(),
    ensures
        byte_views(r@) == seq![ascii(a@), ascii(b@), c@],
{
    let mut r: Vec<Vec<u8>> = Vec::new();
    r.push(lit(a));
    r.push(lit(b));
    r.push(c);
    assert(byte_views(r@) =~= seq![ascii(a@), ascii(b@), c@]);
    r
}

/// The state of the link of a replica to its master: how many bytes of
/// commands it has taken since the handshake.
pub struct Replica {
    total_bytes: usize,
}

/// What a command from the master asks, and how the byte count moves.
pub open spec fn ingested(total: nat, cmd: Seq<Seq<u8>>, length: nat, now: int, a: ReplicaAction) -> bool {
    let t = total + length;
    if cmd.len() == 0 {
        a is Ignored
    } else {
        let name = lower(cmd[0]);
        let args = cmd.drop_first();
        if name == ascii("set"@) {
            match a {
                ReplicaAction::Forward(c) => set_outcome(args, now, Ok(c)),
                ReplicaAction::Ignored => exists|e: CommandError| set_outcome(args, now, Err(e)),
                _ => false,
            }
        } else if name == ascii("replconf"@) {
            if args.len() == 2 && lower(args[0]) == ascii("getack"@) && args[1] == ascii("*"@) {
                a matches ReplicaAction::Reply(b) && b@ == command_bytes(
                    seq![ascii("REPLCONF"@), ascii("ACK"@), decimal(t)],
                )
            } else {
                a is Ignored
            }
        } else if name == ascii("ping"@) {
            a is Nothing
        } else {
            a is Ignored
        }
    }
}

impl Replica {
    pub closed spec fn spec_total(&self) -> nat {
        self.total_bytes as nat
    }

    pub fn new() -> (r: Self)
        ensures
            r.spec_total() == 0,
    {
        Replica { total_bytes: 0 }
    }

    pub fn total_bytes(&self) -> (r: usize)
        ensures
            r == self.spec_total(),
    {
        self.total_bytes
    }

    /// One step of the handshake: the next state, and the command to send.
    pub fn handshake(state: HandshakeState, event: &HandshakeEvent, port: &[u8]) -> (r: (HandshakeState, Option<Vec<u8>>))
        ensures
            r.0 == handshake_next(state, *event, port@).0,
            match handshake_next(state, *event, port@).1 {
                None => r.1 is None,
                Some(b) => r.1 matches Some(x) && x@ == b,
            },
    {
        proof {
            reveal_strlit("PING");
            reveal_strlit("REPLCONF");
            reveal_strlit("listening-port");
            reveal_strlit("capa");
            reveal_strlit("psync2");
            reveal_strlit("PSYNC");
            reveal_strlit("?");
            reveal_strlit("-1");
            reveal_strlit("+PONG");
            reveal_strlit("+OK");
            reveal_strlit("+FULLRESYNC");
        }
        match (state, event) {
            (HandshakeState::Connecting, HandshakeEvent::Connected) => (HandshakeState::PingSent, Some(command(&words1("PING")))),
            (HandshakeState::PingSent, HandshakeEvent::Line(l)) => {
                if bytes_eq(l.as_slice(), lit("+PONG").as_slice()) {
                    let port_bytes = crate::text::copy_bytes(port);
                    (HandshakeState::Replconf1, Some(command(&words3("REPLCONF", "listening-port", port_bytes))))
                } else {
                    (HandshakeState::Terminated, None)
                }
            },
            (HandshakeState::Replconf1, HandshakeEvent::Line(l)) => {
                if bytes_eq(l.as_slice(), lit("+OK").as_slice()) {
                    (HandshakeState::Replconf2, Some(command(&words3("REPLCONF", "capa", lit("psync2")))))
                } else {
                    (HandshakeState::Terminated, None)
                }
            },
            (HandshakeState::Replconf1, HandshakeEvent::Timeout) | (HandshakeState::Replconf1, HandshakeEvent::ReadError) => {
                (HandshakeState::Replconf2, Some(command(&words3("REPLCONF", "capa", lit("psync2")))))
            },
            (HandshakeState::Replconf2, HandshakeEvent::Line(l)) => {
                if bytes_eq(l.as_slice(), lit("+OK").as_slice()) {
                    (HandshakeState::PsyncSent, Some(command(&words3("PSYNC", "?", lit("-1")))))
                } else {
                    (HandshakeState::Terminated, None)
                }
            },
            (HandshakeState::Replconf2, HandshakeEvent::Timeout) | (HandshakeState::Replconf2, HandshakeEvent::ReadError) => {
                (HandshakeState::PsyncSent, Some(command(&words3("PSYNC", "?", lit("-1")))))
            },
            (HandshakeState::PsyncSent, HandshakeEvent::Line(l)) => {
                if l.len() < 11 {
                    return (HandshakeState::Terminated, None);
                }
                let head = l.as_slice().split_at(11).0;
                assert(head@ =~= l@.take(11));
                if bytes_eq(head, lit("+FULLRESYNC").as_slice()) {
                    (HandshakeState::Snapshot, None)
                } else {
                    (HandshakeState::Terminated, None)
                }
            },
            (HandshakeState::Snapshot, HandshakeEvent::SnapshotRead) => (HandshakeState::Streaming, None),
            _ => (HandshakeState::Terminated, None),
        }
    }

    fn handle_replconf(&self, args: &[Vec<u8>]) -> (r: ReplicaAction)
        ensures
            if args@.len() == 2 && lower(args@[0]@) == ascii("getack"@) && args@[1]@ == ascii("*"@) {
                r matches ReplicaAction::Reply(b) && b@ == command_bytes(
                    seq![ascii("REPLCONF"@), ascii("ACK"@), decimal(self.spec_total())],
                )
            } else {
                r is Ignored
            },
    {
        proof {
            reveal_strlit("getack");
            reveal_strlit("*");
            reveal_strlit("REPLCONF");
            reveal_strlit("ACK");
        }
        if args.len() == 2 && eq_ignore_case(args[0].as_slice(), lit("getack").as_slice())
            && bytes_eq(args[1].as_slice(), lit("*").as_slice()) {
            let mut count: Vec<u8> = Vec::new();
            push_decimal(&mut count, self.total_bytes as u128);
            assert(count@ =~= decimal(self.spec_total()));
            ReplicaAction::Reply(command(&words3("REPLCONF", "ACK", count)))
        } else {
            ReplicaAction::Ignored
        }
    }

    /// Takes one command from the master. Its bytes are counted first, so an
    /// acknowledgement counts the frame that asked for it.
    pub fn dispatch(&mut self, cmd: &Command, now: u64) -> (r: ReplicaAction)
        requires
            old(self).spec_total() + cmd.length <= usize::MAX,
        ensures
            final(self).spec_total() == old(self).spec_total() + cmd.length,
            ingested(old(self).spec_total(), byte_views(cmd.payload@), cmd.length as nat, now as int, r),
    {
        proof {
            reveal_strlit("set");
            reveal_strlit("replconf");
            reveal_strlit("ping");
        }
        self.total_bytes = self.total_bytes + cmd.length;
        let words = &cmd.payload;
        if words.len() == 0 {
            return ReplicaAction::Ignored;
        }
        let args = words.as_slice().split_at(1).1;
        assert(byte_views(args@) =~= byte_views(words@).drop_first());
        let name = crate::text::to_lower(words[0].as_slice());
        if bytes_eq(name.as_slice(), lit("set").as_slice()) {
            match handle_set(args, now) {
                Ok(c) => ReplicaAction::Forward(c),
                Err(_) => ReplicaAction::Ignored,
            }
        } else if bytes_eq(name.as_slice(), lit("replconf").as_slice()) {
            proof {
                if args@.len() == 2 {
                    assert(byte_views(args@)[0] == args@[0]@);
                    assert(byte_views(args@)[1] == args@[1]@);
                }
            }
            self.handle_replconf(args)
        } else if bytes_eq(name.as_slice(), lit("ping").as_slice()) {
            ReplicaAction::Nothing
        } else {
            ReplicaAction::Ignored
        }
    }
}

} // verus!
