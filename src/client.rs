//! The decisions of a client connection: what each command asks of the store
//! or of the configuration, and the reply that follows from their answers.
use vstd::prelude::*;
use itertools::Itertools;
use crate::common_cli_rep::{
    arity_text, err_line, error_reply, handle_set, set_outcome, unknown_command_text,
    unknown_subcommand_text, CommandError,
};
use crate::config::{ConfigCommand, ConfigReply};
use crate::io::{
    byte_views, nil_reply, ok_reply, raw_bulk, simple_line, write_array_size, write_bytes,
    write_integer, write_nil, write_ok, write_simple_string, write_string, write_wrongtype,
    wrongtype_reply,
};
use crate::store::{opt_view, CommandResponse, StoreCommand};
use crate::text::{ascii, bytes_eq, copy_bytes, eq_ignore_case, lit, lower, push_all, push_str, to_lower};
use crate::text::decimal;
use crate::types::{array_header, bulk_frame, crlf, encode, int_frame, RedisType, Resp};

verus! {

broadcast use vstd::string::group_string_axioms;

/// The answer to `HELLO`.
pub open spec fn hello_value() -> Resp {
    Resp::Array(seq![
        Resp::Bulk(ascii("server"@)),
        Resp::Bulk(ascii("codecrafters-redis"@)),
        Resp::Bulk(ascii("version"@)),
        Resp::Bulk(ascii("0.2"@)),
        Resp::Bulk(ascii("proto"@)),
        Resp::Int(2),
        Resp::Bulk(ascii("mode"@)),
        Resp::Bulk(ascii("standalone"@)),
        Resp::Bulk(ascii("role"@)),
        Resp::Bulk(ascii("master"@)),
        Resp::Bulk(ascii("modules"@)),
        Resp::Array(seq![]),
    ])
}

/// The answer to `CONFIG HELP`.
pub open spec fn help_reply() -> Seq<u8> {
    array_header(5)
        + simple_line(ascii("CONFIG <subcommand> [<arg> [value] [opt] ...]. Subcommands are:"@))
        + simple_line(ascii("GET <pattern>"@))
        + simple_line(ascii("    Return parameters matching the glob-like <pattern> and their values."@))
        + simple_line(ascii("HELP"@))
        + simple_line(ascii("    Prints this help."@))
}

/// A minimal empty snapshot: the header, the end-of-file marker and an
/// all-zero checksum.
pub open spec fn empty_rdb() -> Seq<u8> {
    ascii("REDIS0010"@) + seq![0xffu8, 0u8, 0u8, 0u8, 0u8, 0u8, 0u8, 0u8, 0u8]
}

/// What a master sends to a new replica: `+FULLRESYNC <replid> 0` and the
/// snapshot as a raw bulk.
pub open spec fn psync_bytes(replid: Seq<u8>) -> Seq<u8> {
    simple_line(ascii("FULLRESYNC "@) + replid + ascii(" 0"@)) + raw_bulk(empty_rdb())
}

/// The snapshot sent to a new replica is an empty image: the magic word,
/// four version digits, no auxiliary field and no entry, the end-of-file
/// marker, and an 8-byte checksum that ends it.
pub proof fn law_empty_snapshot_shape(replid: Seq<u8>)
    ensures
        psync_bytes(replid) == simple_line(ascii("FULLRESYNC "@) + replid + ascii(" 0"@))
            + ascii("$18\r\n"@) + empty_rdb(),
        empty_rdb().len() == 18,
        empty_rdb().subrange(0, 5) == ascii("REDIS"@),
        crate::text::all_digits(empty_rdb().subrange(5, 9)),
        empty_rdb()[9] == 0xffu8,
{
    reveal_strlit("REDIS0010");
    reveal_strlit("REDIS");
    reveal_strlit("$18\r\n");
    assert(decimal(1) == seq![49u8]);
    assert(decimal(18) == decimal(1).push(56u8));
    assert(decimal(18) =~= seq![49u8, 56u8]);
    assert(raw_bulk(empty_rdb()) =~= ascii("$18\r\n"@) + empty_rdb());
    assert(empty_rdb().subrange(0, 5) =~= ascii("REDIS"@));
}

/// The items with the later repeats of an item left out.
pub open spec fn first_occurrences(s: Seq<Seq<u8>>) -> Seq<Seq<u8>>
    decreases s.len(),
{
    if s.len() == 0 {
        seq![]
    } else {
        let p = first_occurrences(s.drop_last());
        if p.contains(s.last()) {
            p
        } else {
            p.push(s.last())
        }
    }
}

pub open spec fn lower_all(s: Seq<Seq<u8>>) -> Seq<Seq<u8>> {
    s.map_values(|w: Seq<u8>| lower(w))
}

pub open spec fn bulks(s: Seq<Seq<u8>>) -> Seq<Resp> {
    s.map_values(|w: Seq<u8>| Resp::Bulk(w))
}

/// `ts` joined with CRLF.
pub open spec fn join_lines(ts: Seq<Seq<u8>>) -> Seq<u8>
    decreases ts.len(),
{
    if ts.len() == 0 {
        seq![]
    } else if ts.len() == 1 {
        ts[0]
    } else {
        join_lines(ts.drop_last()) + crlf() + ts.last()
    }
}

/// The reply to `GET`.
pub open spec fn get_reply(v: Option<Resp>) -> Seq<u8> {
    match v {
        None => nil_reply(),
        Some(Resp::Bulk(s)) => bulk_frame(s),
        Some(Resp::Int(n)) => int_frame(n),
        Some(Resp::Timestamp(n)) => int_frame(n),
        Some(Resp::Array(_)) => wrongtype_reply(),
    }
}

/// The reply to `INFO <sections>`: the section texts joined with CRLF and
/// ended with CRLF, as a bulk string; an empty bulk string when none is known.
pub open spec fn sections_reply(ts: Seq<Seq<u8>>) -> Seq<u8> {
    if ts.len() == 0 {
        bulk_frame(seq![])
    } else {
        bulk_frame(join_lines(ts) + crlf())
    }
}

pub open spec fn internal_error_reply() -> Seq<u8> {
    err_line(ascii("internal error"@))
}

/// Relies on `itertools::Itertools::unique`: the items in order, each kept
/// only where it first occurs.
#[verifier::external_body]
fn unique_names(v: Vec<Vec<u8>>) -> (r: Vec<Vec<u8>>)
    ensures
        byte_views(r@) == first_occurrences(byte_views(v@)),
{
    v.into_iter().unique().collect()
}

/// How to turn an answer of the store or the configuration into a reply.
pub enum Then {
    Value,
    KeyIfPresent(Vec<u8>),
    Keys,
    ConfigValues,
    InfoAll,
    InfoSections,
}

/// What a command asks of the connection.
pub enum Action {
    /// Write these bytes.
    Reply(Vec<u8>),
    /// Send the command to the store, wait for its answer, then reply.
    Store(StoreCommand, Then),
    /// Send the command to the store, then write these bytes.
    Write(StoreCommand, Vec<u8>),
    /// Ask the configuration, wait for its answer, then reply.
    Config(ConfigCommand, Then),
    /// Turn this connection into a feed for a replica.
    Psync,
}

/// A connection of a client, known to the store by its id.
pub struct Client {
    pub id: usize,
}

pub open spec fn replies(a: Action, b: Seq<u8>) -> bool {
    a matches Action::Reply(x) && x@ == b
}

pub open spec fn ping_planned(args: Seq<Seq<u8>>, a: Action) -> bool {
    if args.len() == 0 {
        replies(a, ascii("+PONG\r\n"@))
    } else if args.len() == 1 {
        replies(a, bulk_frame(args[0]))
    } else {
        replies(a, err_line(arity_text(ascii("ping"@))))
    }
}

pub open spec fn echo_planned(args: Seq<Seq<u8>>, a: Action) -> bool {
    if args.len() == 1 {
        replies(a, bulk_frame(args[0]))
    } else {
        replies(a, err_line(arity_text(ascii("echo"@))))
    }
}

pub open spec fn hello_planned(args: Seq<Seq<u8>>, a: Action) -> bool {
    if args.len() == 0 {
        replies(a, encode(hello_value()))
    } else {
        replies(a, err_line(arity_text(ascii("hello"@))))
    }
}

pub open spec fn set_planned(args: Seq<Seq<u8>>, now: int, a: Action) -> bool {
    match a {
        Action::Write(cmd, ok) => set_outcome(args, now, Ok(cmd)) && ok@ == ok_reply(),
        Action::Reply(x) => exists|e: CommandError| set_outcome(args, now, Err(e)) && x@ == error_reply(e),
        _ => false,
    }
}

pub open spec fn get_planned(id: usize, args: Seq<Seq<u8>>, a: Action) -> bool {
    if args.len() == 1 {
        a matches Action::Store(StoreCommand::Get { id: i, key }, Then::Value) && i == id && key@ == args[0]
    } else {
        replies(a, err_line(arity_text(ascii("get"@))))
    }
}

pub open spec fn config_planned(args: Seq<Seq<u8>>, a: Action) -> bool {
    if args.len() == 0 {
        replies(a, err_line(arity_text(ascii("config"@))))
    } else if lower(args[0]) == ascii("get"@) {
        if args.len() == 1 {
            replies(a, err_line(arity_text(ascii("config|get"@))))
        } else {
            a matches Action::Config(ConfigCommand::Get { items }, Then::ConfigValues)
                && byte_views(items@) == lower_all(args.drop_first())
        }
    } else if lower(args[0]) == ascii("help"@) {
        if args.len() == 1 {
            replies(a, help_reply())
        } else {
            replies(a, err_line(arity_text(ascii("config|help"@))))
        }
    } else {
        replies(a, err_line(unknown_subcommand_text(args[0])))
    }
}

pub open spec fn keys_planned(id: usize, args: Seq<Seq<u8>>, a: Action) -> bool {
    if args.len() != 1 {
        replies(a, err_line(arity_text(ascii("keys"@))))
    } else if args[0] == ascii("*"@) {
        a matches Action::Store(StoreCommand::AllKeys(i), Then::Keys) && i == id
    } else if args[0].contains(42u8) {
        replies(a, err_line(ascii("general pattern matching unsupported"@)))
    } else {
        a matches Action::Store(StoreCommand::Get { id: i, key }, Then::KeyIfPresent(k)) && i == id
            && key@ == args[0] && k@ == args[0]
    }
}

pub open spec fn info_planned(args: Seq<Seq<u8>>, a: Action) -> bool {
    if args.len() == 0 {
        a matches Action::Config(ConfigCommand::AllInfo, Then::InfoAll)
    } else {
        a matches Action::Config(ConfigCommand::InfoOn { sections }, Then::InfoSections)
            && byte_views(sections@) == first_occurrences(lower_all(args))
    }
}

pub open spec fn psync_planned(args: Seq<Seq<u8>>, a: Action) -> bool {
    if args == seq![ascii("?"@), ascii("-1"@)] {
        a is Psync
    } else {
        replies(a, err_line(ascii("Unsupported PSYNC arguments"@)))
    }
}

/// What the command `cmd` (its name, then its arguments) asks of the
/// connection of client `id` at time `now`.
pub open spec fn planned(id: usize, cmd: Seq<Seq<u8>>, now: int, a: Action) -> bool {
    if cmd.len() == 0 {
        replies(a, seq![])
    } else {
        let name = lower(cmd[0]);
        let args = cmd.drop_first();
        if name == ascii("ping"@) {
            ping_planned(args, a)
        } else if name == ascii("echo"@) {
            echo_planned(args, a)
        } else if name == ascii("hello"@) {
            hello_planned(args, a)
        } else if name == ascii("set"@) {
            set_planned(args, now, a)
        } else if name == ascii("get"@) {
            get_planned(id, args, a)
        } else if name == ascii("config"@) {
            config_planned(args, a)
        } else if name == ascii("keys"@) {
            keys_planned(id, args, a)
        } else if name == ascii("info"@) {
            info_planned(args, a)
        } else if name == ascii("replconf"@) {
            replies(a, ok_reply())
        } else if name == ascii("psync"@) {
            psync_planned(args, a)
        } else {
            replies(a, err_line(unknown_command_text(cmd[0], args)))
        }
    }
}

/// A bulk string holding an ASCII word.
fn word(s: &str) -> (r: RedisType)
    requires
        s.is_ascii(),
    ensures
        r@ == Resp::Bulk(ascii(s@)),
{
    RedisType::String(lit(s))
}

/// The value that `HELLO` answers.
pub fn init_static_data() -> (r: RedisType)
    ensures
        r@ == hello_value(),
{
    proof {
        reveal_strlit("server");
        reveal_strlit("codecrafters-redis");
        reveal_strlit("version");
        reveal_strlit("0.2");
        reveal_strlit("proto");
        reveal_strlit("mode");
        reveal_strlit("standalone");
        reveal_strlit("role");
        reveal_strlit("master");
        reveal_strlit("modules");
    }
    let mut v: Vec<RedisType> = Vec::new();
    v.push(word("server"));
    v.push(word("codecrafters-redis"));
    v.push(word("version"));
    v.push(word("0.2"));
    v.push(word("proto"));
    v.push(RedisType::Int(2));
    v.push(word("mode"));
    v.push(word("standalone"));
    v.push(word("role"));
    v.push(word("master"));
    v.push(word("modules"));
    let none: Vec<RedisType> = Vec::new();
    let modules = RedisType::Array(none);
    assert(modules@->Array_0 =~= Seq::<Resp>::empty());
    v.push(modules);
    let r = RedisType::Array(v);
    proof {
        let xs = r@->Array_0;
        assert forall|k: int| 0 <= k < 12 implies #[trigger] xs[k] == v@[k]@ by {}
        assert(xs =~= hello_value()->Array_0);
    }
    r
}

fn arity(name: &str) -> (r: Action)
    requires
        name.is_ascii(),
    ensures
        replies(r, err_line(arity_text(ascii(name@)))),
{
    let e = CommandError::WrongArity(lit(name));
    Action::Reply(e.reply())
}

fn bulk_reply(s: &[u8]) -> (r: Action)
    ensures
        replies(r, bulk_frame(s@)),
{
    let mut out: Vec<u8> = Vec::new();
    write_string(&mut out, s);
    assert(out@ =~= bulk_frame(s@));
    Action::Reply(out)
}

fn lower_words(args: &[Vec<u8>]) -> (r: Vec<Vec<u8>>)
    ensures
        byte_views(r@) == lower_all(byte_views(args@)),
{
    let mut r: Vec<Vec<u8>> = Vec::new();
    let mut i: usize = 0;
    while i < args.len()
        invariant
            i <= args@.len(),
            r@.len() == i,
            byte_views(r@) == lower_all(byte_views(args@.take(i as int))),
        decreases args@.len() - i,
    {
        let ghost prev = r@;
        r.push(to_lower(args[i].as_slice()));
        i = i + 1;
        proof {
            let want = lower_all(byte_views(args@.take(i as int)));
            assert forall|j: int| 0 <= j < i implies #[trigger] byte_views(r@)[j] == want[j] by {
                if j < i - 1 {
                    assert(byte_views(prev)[j] == lower_all(byte_views(args@.take(i - 1)))[j]);
                }
            }
            assert(byte_views(r@) =~= want);
        }
    }
    assert(args@.take(i as int) =~= args@);
    r
}

fn contains_star(s: &[u8]) -> (r: bool)
    ensures
        r == s@.contains(42u8),
{
    let mut i: usize = 0;
    while i < s.len()
        invariant
            i <= s@.len(),
            forall|j: int| 0 <= j < i ==> s@[j] != 42u8,
        decreases s@.len() - i,
    {
        if s[i] == 42 {
            return true;
        }
        i = i + 1;
    }
    false
}

/// The bytes of the `CONFIG HELP` answer.
fn help_bytes() -> (r: Vec<u8>)
    ensures
        r@ == help_reply(),
{
    proof {
        reveal_strlit("CONFIG <subcommand> [<arg> [value] [opt] ...]. Subcommands are:");
        reveal_strlit("GET <pattern>");
        reveal_strlit("    Return parameters matching the glob-like <pattern> and their values.");
        reveal_strlit("HELP");
        reveal_strlit("    Prints this help.");
    }
    let mut out: Vec<u8> = Vec::new();
    write_array_size(&mut out, 5);
    write_simple_string(&mut out, lit("CONFIG <subcommand> [<arg> [value] [opt] ...]. Subcommands are:").as_slice());
    write_simple_string(&mut out, lit("GET <pattern>").as_slice());
    write_simple_string(&mut out, lit("    Return parameters matching the glob-like <pattern> and their values.").as_slice());
    write_simple_string(&mut out, lit("HELP").as_slice());
    write_simple_string(&mut out, lit("    Prints this help.").as_slice());
    assert(out@ =~= help_reply());
    out
}

impl Client {
    /// The bytes that start a replica feed: `+FULLRESYNC <replid> 0`, then
    /// the empty snapshot as a raw bulk with nothing after it.
    pub fn handle_psync(replid: &[u8]) -> (r: Vec<u8>)
        ensures
            r@ == psync_bytes(replid@),
    {
        proof {
            reveal_strlit("FULLRESYNC ");
            reveal_strlit(" 0");
            reveal_strlit("REDIS0010");
        }
        let mut line: Vec<u8> = lit("FULLRESYNC ");
        push_all(&mut line, replid);
        push_str(&mut line, " 0");
        let mut out: Vec<u8> = Vec::new();
        write_simple_string(&mut out, line.as_slice());
        let mut rdb: Vec<u8> = lit("REDIS0010");
        rdb.push(0xff);
        let mut k: usize = 0;
        while k < 8
            invariant
                k <= 8,
                rdb@ == ascii("REDIS0010"@) + seq![0xffu8] + Seq::new(k as nat, |_i: int| 0u8),
            decreases 8 - k,
        {
            rdb.push(0);
            k = k + 1;
            assert(rdb@ =~= ascii("REDIS0010"@) + seq![0xffu8] + Seq::new(k as nat, |_i: int| 0u8));
        }
        assert(rdb@ =~= empty_rdb());
        write_bytes(&mut out, rdb.as_slice());
        assert(out@ =~= psync_bytes(replid@));
        out
    }
}

impl Client {
    fn handle_ping(&self, args: &[Vec<u8>]) -> (r: Action)
        ensures
            ping_planned(byte_views(args@), r),
    {
        proof {
            reveal_strlit("+PONG\r\n");
            reveal_strlit("ping");
        }
        if args.len() == 0 {
            Action::Reply(lit("+PONG\r\n"))
        } else if args.len() == 1 {
            bulk_reply(args[0].as_slice())
        } else {
            arity("ping")
        }
    }

    fn handle_echo(&self, args: &[Vec<u8>]) -> (r: Action)
        ensures
            echo_planned(byte_views(args@), r),
    {
        proof {
            reveal_strlit("echo");
        }
        if args.len() == 1 {
            bulk_reply(args[0].as_slice())
        } else {
            arity("echo")
        }
    }

    fn handle_hello(&self, args: &[Vec<u8>]) -> (r: Action)
        ensures
            hello_planned(byte_views(args@), r),
    {
        proof {
            reveal_strlit("hello");
        }
        if args.len() == 0 {
            Action::Reply(init_static_data().to_vec())
        } else {
            arity("hello")
        }
    }

    fn handle_set(&self, args: &[Vec<u8>], now: u64) -> (r: Action)
        ensures
            set_planned(byte_views(args@), now as int, r),
    {
        match handle_set(args, now) {
            Ok(cmd) => {
                let mut ok: Vec<u8> = Vec::new();
                write_ok(&mut ok);
                assert(ok@ =~= ok_reply());
                Action::Write(cmd, ok)
            },
            Err(e) => Action::Reply(e.reply()),
        }
    }

    fn handle_get(&self, args: &[Vec<u8>]) -> (r: Action)
        ensures
            get_planned(self.id, byte_views(args@), r),
    {
        proof {
            reveal_strlit("get");
        }
        if args.len() == 1 {
            Action::Store(StoreCommand::Get { id: self.id, key: copy_bytes(args[0].as_slice()) }, Then::Value)
        } else {
            arity("get")
        }
    }

    fn handle_config(&self, args: &[Vec<u8>]) -> (r: Action)
        ensures
            config_planned(byte_views(args@), r),
    {
        proof {
            reveal_strlit("config");
            reveal_strlit("config|get");
            reveal_strlit("config|help");
            reveal_strlit("get");
            reveal_strlit("help");
        }
        if args.len() == 0 {
            return arity("config");
        }
        let rest = args.split_at(1).1;
        assert(byte_views(rest@) =~= byte_views(args@).drop_first());
        if eq_ignore_case(args[0].as_slice(), lit("get").as_slice()) {
            if args.len() == 1 {
                arity("config|get")
            } else {
                Action::Config(ConfigCommand::Get { items: lower_words(rest) }, Then::ConfigValues)
            }
        } else if eq_ignore_case(args[0].as_slice(), lit("help").as_slice()) {
            if args.len() == 1 {
                Action::Reply(help_bytes())
            } else {
                arity("config|help")
            }
        } else {
            let e = CommandError::UnknownSubcommand(copy_bytes(args[0].as_slice()));
            Action::Reply(e.reply())
        }
    }

    fn handle_keys(&self, args: &[Vec<u8>]) -> (r: Action)
        ensures
            keys_planned(self.id, byte_views(args@), r),
    {
        proof {
            reveal_strlit("keys");
            reveal_strlit("*");
            reveal_strlit("general pattern matching unsupported");
        }
        if args.len() != 1 {
            return arity("keys");
        }
        if bytes_eq(args[0].as_slice(), lit("*").as_slice()) {
            Action::Store(StoreCommand::AllKeys(self.id), Then::Keys)
        } else if contains_star(args[0].as_slice()) {
            let e = CommandError::PatternUnsupported;
            Action::Reply(e.reply())
        } else {
            Action::Store(
                StoreCommand::Get { id: self.id, key: copy_bytes(args[0].as_slice()) },
                Then::KeyIfPresent(copy_bytes(args[0].as_slice())),
            )
        }
    }

    fn handle_info(&self, args: &[Vec<u8>]) -> (r: Action)
        ensures
            info_planned(byte_views(args@), r),
    {
        if args.len() == 0 {
            Action::Config(ConfigCommand::AllInfo, Then::InfoAll)
        } else {
            let sections = unique_names(lower_words(args));
            Action::Config(ConfigCommand::InfoOn { sections }, Then::InfoSections)
        }
    }

    fn check_psync(&self, args: &[Vec<u8>]) -> (r: Action)
        ensures
            psync_planned(byte_views(args@), r),
    {
        proof {
            reveal_strlit("?");
            reveal_strlit("-1");
        }
        if args.len() == 2 && bytes_eq(args[0].as_slice(), lit("?").as_slice())
            && bytes_eq(args[1].as_slice(), lit("-1").as_slice()) {
            assert(byte_views(args@) =~= seq![ascii("?"@), ascii("-1"@)]);
            Action::Psync
        } else {
            proof {
                let bv = byte_views(args@);
                assert(bv.len() == args@.len());
                if bv == seq![ascii("?"@), ascii("-1"@)] {
                    assert(bv[0] == args@[0]@);
                    assert(bv[1] == args@[1]@);
                }
            }
            let e = CommandError::PsyncArguments;
            Action::Reply(e.reply())
        }
    }

    /// Decides what the command `cmd` (its name, then its arguments) asks of
    /// this connection at time `now`.
    pub fn dispatch(&self, cmd: &Vec<Vec<u8>>, now: u64) -> (r: Action)
        ensures
            planned(self.id, byte_views(cmd@), now as int, r),
    {
        proof {
            reveal_strlit("ping");
            reveal_strlit("echo");
            reveal_strlit("hello");
            reveal_strlit("set");
            reveal_strlit("get");
            reveal_strlit("config");
            reveal_strlit("keys");
            reveal_strlit("info");
            reveal_strlit("replconf");
            reveal_strlit("psync");
        }
        if cmd.len() == 0 {
            return Action::Reply(Vec::new());
        }
        let args = cmd.as_slice().split_at(1).1;
        assert(byte_views(args@) =~= byte_views(cmd@).drop_first());
        let name = to_lower(cmd[0].as_slice());
        let n = name.as_slice();
        if bytes_eq(n, lit("ping").as_slice()) {
            self.handle_ping(args)
        } else if bytes_eq(n, lit("echo").as_slice()) {
            self.handle_echo(args)
        } else if bytes_eq(n, lit("hello").as_slice()) {
            self.handle_hello(args)
        } else if bytes_eq(n, lit("set").as_slice()) {
            self.handle_set(args, now)
        } else if bytes_eq(n, lit("get").as_slice()) {
            self.handle_get(args)
        } else if bytes_eq(n, lit("config").as_slice()) {
            self.handle_config(args)
        } else if bytes_eq(n, lit("keys").as_slice()) {
            self.handle_keys(args)
        } else if bytes_eq(n, lit("info").as_slice()) {
            self.handle_info(args)
        } else if bytes_eq(n, lit("replconf").as_slice()) {
            let mut out: Vec<u8> = Vec::new();
            write_ok(&mut out);
            assert(out@ =~= ok_reply());
            Action::Reply(out)
        } else if bytes_eq(n, lit("psync").as_slice()) {
            self.check_psync(args)
        } else {
            let mut rest: Vec<Vec<u8>> = Vec::new();
            let mut i: usize = 0;
            while i < args.len()
                invariant
                    i <= args@.len(),
                    rest@.len() == i,
                    byte_views(rest@) == byte_views(args@.take(i as int)),
                decreases args@.len() - i,
            {
                let ghost prev = rest@;
                rest.push(copy_bytes(args[i].as_slice()));
                i = i + 1;
                proof {
                    let want = byte_views(args@.take(i as int));
                    assert forall|j: int| 0 <= j < i implies #[trigger] byte_views(rest@)[j] == want[j] by {
                        if j < i - 1 {
                            assert(byte_views(prev)[j] == byte_views(args@.take(i - 1))[j]);
                        }
                    }
                    assert(byte_views(rest@) =~= want);
                }
            }
            assert(args@.take(i as int) =~= args@);
            let e = CommandError::UnknownCommand(copy_bytes(cmd[0].as_slice()), rest);
            Action::Reply(e.reply())
        }
    }
}

/// The reply once the store has answered.
pub open spec fn store_completed(then: Then, resp: CommandResponse, r: Seq<u8>) -> bool {
    match (then, resp) {
        (Then::Value, CommandResponse::Get(v)) => r == get_reply(opt_view(v)),
        (Then::KeyIfPresent(k), CommandResponse::Get(v)) => r == encode(
            Resp::Array(if v is Some { seq![Resp::Bulk(k@)] } else { seq![] }),
        ),
        (Then::Keys, CommandResponse::Keys(v)) => r == encode(v@),
        _ => r == internal_error_reply(),
    }
}

/// The reply once the configuration has answered.
pub open spec fn config_completed(then: Then, reply: ConfigReply, r: Seq<u8>) -> bool {
    match (then, reply) {
        (Then::ConfigValues, ConfigReply::Values(vs)) => r == encode(Resp::Array(bulks(byte_views(vs@)))),
        (Then::InfoAll, ConfigReply::Info(t)) => r == bulk_frame(t@ + crlf()),
        (Then::InfoSections, ConfigReply::Sections(ts)) => r == sections_reply(byte_views(ts@)),
        _ => r == internal_error_reply(),
    }
}

fn internal_error() -> (r: Vec<u8>)
    ensures
        r@ == internal_error_reply(),
{
    proof {
        reveal_strlit("ERR internal error");
    }
    let mut out: Vec<u8> = Vec::new();
    out.push(45);
    push_str(&mut out, "ERR internal error");
    out.push(13);
    out.push(10);
    proof {
        reveal_strlit("ERR ");
        reveal_strlit("internal error");
    }
    assert(out@ =~= internal_error_reply());
    out
}

fn bulk_array(items: &Vec<Vec<u8>>) -> (r: RedisType)
    ensures
        r@ == Resp::Array(bulks(byte_views(items@))),
{
    let mut v: Vec<RedisType> = Vec::new();
    let mut i: usize = 0;
    while i < items.len()
        invariant
            i <= items@.len(),
            v@.len() == i,
            forall|j: int| 0 <= j < i ==> (#[trigger] v@[j])@ == Resp::Bulk(items@[j]@),
        decreases items@.len() - i,
    {
        v.push(RedisType::bulk(items[i].as_slice()));
        i = i + 1;
    }
    let r = RedisType::Array(v);
    assert(r@->Array_0 =~= bulks(byte_views(items@)));
    r
}

fn join_with_crlf(ts: &Vec<Vec<u8>>) -> (r: Vec<u8>)
    ensures
        r@ == join_lines(byte_views(ts@)),
{
    let mut out: Vec<u8> = Vec::new();
    let mut i: usize = 0;
    while i < ts.len()
        invariant
            i <= ts@.len(),
            out@ == join_lines(byte_views(ts@.take(i as int))),
        decreases ts@.len() - i,
    {
        assert(byte_views(ts@.take(i + 1)).drop_last() =~= byte_views(ts@.take(i as int)));
        if i > 0 {
            out.push(13);
            out.push(10);
        }
        push_all(&mut out, ts[i].as_slice());
        i = i + 1;
        proof {
            if i == 1 {
                assert(out@ =~= join_lines(byte_views(ts@.take(i as int))));
            } else {
                assert(out@ =~= join_lines(byte_views(ts@.take(i as int))));
            }
        }
    }
    assert(ts@.take(i as int) =~= ts@);
    out
}

impl Client {
    /// The reply to a command once the store has answered.
    pub fn complete_store(then: &Then, resp: &CommandResponse) -> (r: Vec<u8>)
        ensures
            store_completed(*then, *resp, r@),
    {
        let mut out: Vec<u8> = Vec::new();
        match (then, resp) {
            (Then::Value, CommandResponse::Get(v)) => {
                match v {
                    None => write_nil(&mut out),
                    Some(RedisType::String(s)) => write_string(&mut out, s.as_slice()),
                    Some(RedisType::Int(n)) => write_integer(&mut out, *n),
                    Some(RedisType::Timestamp(t)) => {
                        out.push(58);
                        crate::text::push_decimal(&mut out, *t);
                        out.push(13);
                        out.push(10);
                    },
                    Some(RedisType::Array(_)) => write_wrongtype(&mut out),
                }
                assert(out@ =~= get_reply(opt_view(*v)));
                out
            },
            (Then::KeyIfPresent(k), CommandResponse::Get(v)) => {
                let mut items: Vec<RedisType> = Vec::new();
                if v.is_some() {
                    items.push(RedisType::bulk(k.as_slice()));
                }
                let a = RedisType::Array(items);
                assert(a@->Array_0 =~= (if v is Some { seq![Resp::Bulk(k@)] } else { seq![] }));
                a.to_vec()
            },
            (Then::Keys, CommandResponse::Keys(v)) => v.to_vec(),
            _ => internal_error(),
        }
    }

    /// The reply to a command once the configuration has answered.
    pub fn complete_config(then: &Then, reply: &ConfigReply) -> (r: Vec<u8>)
        ensures
            config_completed(*then, *reply, r@),
    {
        let mut out: Vec<u8> = Vec::new();
        match (then, reply) {
            (Then::ConfigValues, ConfigReply::Values(vs)) => bulk_array(vs).to_vec(),
            (Then::InfoAll, ConfigReply::Info(t)) => {
                let mut text = copy_bytes(t.as_slice());
                text.push(13);
                text.push(10);
                write_string(&mut out, text.as_slice());
                assert(text@ =~= t@ + crlf());
                out
            },
            (Then::InfoSections, ConfigReply::Sections(ts)) => {
                if ts.len() == 0 {
                    write_string(&mut out, Vec::new().as_slice());
                    assert(out@ =~= sections_reply(byte_views(ts@)));
                } else {
                    let mut text = join_with_crlf(ts);
                    let ghost j = text@;
                    text.push(13);
                    text.push(10);
                    assert(text@ =~= j + crlf());
                    write_string(&mut out, text.as_slice());
                }
                out
            },
            _ => internal_error(),
        }
    }
}

} // verus!
