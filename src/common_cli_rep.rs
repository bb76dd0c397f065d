//! What a client connection and the replica's master link share: the command
//! errors, and the reading of `SET` arguments.
use vstd::prelude::*;
use crate::io::{byte_views, error_line};
use crate::store::StoreCommand;
use crate::text::{ascii, copy_bytes, eq_ignore_case, lit, lower, parse_bounded, parse_u64, push_all, push_str};

verus! {

broadcast use vstd::string::group_string_axioms;

/// A command that cannot be carried out; the connection stays open.
#[derive(PartialEq, Eq, Debug)]
pub enum CommandError {
    /// The command (or `command|subcommand`) got a wrong number of arguments.
    WrongArity(Vec<u8>),
    Syntax,
    NotInteger,
    InvalidExpire,
    UnknownSubcommand(Vec<u8>),
    PatternUnsupported,
    /// An unknown command: its name and its arguments.
    UnknownCommand(Vec<u8>, Vec<Vec<u8>>),
    PsyncArguments,
}

/// `'a' 'b' 'c'`
pub open spec fn quoted(args: Seq<Seq<u8>>) -> Seq<u8>
    decreases args.len(),
{
    if args.len() == 0 {
        seq![]
    } else if args.len() == 1 {
        seq![39u8] + args[0] + seq![39u8]
    } else {
        quoted(args.drop_last()) + seq![32u8, 39u8] + args.last() + seq![39u8]
    }
}

pub open spec fn arity_text(name: Seq<u8>) -> Seq<u8> {
    ascii("wrong number of arguments for '"@) + name + ascii("' command"@)
}

pub open spec fn unknown_subcommand_text(sub: Seq<u8>) -> Seq<u8> {
    ascii("unknown subcommand '"@) + sub + ascii("'. Try CONFIG HELP"@)
}

pub open spec fn unknown_command_text(name: Seq<u8>, args: Seq<Seq<u8>>) -> Seq<u8> {
    ascii("unknown command '"@) + name + ascii("', with args beginning with: "@) + quoted(args)
}

/// The reply line of an error text: `-ERR <text>\r\n`.
pub open spec fn err_line(text: Seq<u8>) -> Seq<u8> {
    error_line(ascii("ERR "@) + text)
}

/// The text of an error.
pub open spec fn error_text(e: CommandError) -> Seq<u8> {
    match e {
        CommandError::WrongArity(name) => arity_text(name@),
        CommandError::Syntax => ascii("syntax error"@),
        CommandError::NotInteger => ascii("value is not an integer or out of range"@),
        CommandError::InvalidExpire => ascii("invalid expire time in 'set' command"@),
        CommandError::UnknownSubcommand(sub) => unknown_subcommand_text(sub@),
        CommandError::PatternUnsupported => ascii("general pattern matching unsupported"@),
        CommandError::UnknownCommand(name, args) => unknown_command_text(name@, byte_views(args@)),
        CommandError::PsyncArguments => ascii("Unsupported PSYNC arguments"@),
    }
}

/// The reply line of an error: `-ERR <text>\r\n`.
pub open spec fn error_reply(e: CommandError) -> Seq<u8> {
    err_line(error_text(e))
}

fn push_quoted(out: &mut Vec<u8>, args: &Vec<Vec<u8>>)
    ensures
        final(out)@ == old(out)@ + quoted(byte_views(args@)),
{
    let mut i: usize = 0;
    while i < args.len()
        invariant
            i <= args@.len(),
            out@ == old(out)@ + quoted(byte_views(args@.take(i as int))),
        decreases args@.len() - i,
    {
        let ghost before = out@;
        assert(byte_views(args@.take(i + 1)).drop_last() =~= byte_views(args@.take(i as int)));
        if i > 0 {
            out.push(32);
        }
        out.push(39);
        push_all(out, args[i].as_slice());
        out.push(39);
        i = i + 1;
        assert(out@ =~= old(out)@ + quoted(byte_views(args@.take(i as int))));
    }
    assert(args@.take(i as int) =~= args@);
}

impl CommandError {
    /// The text of the error.
    pub fn message(&self) -> (r: Vec<u8>)
        ensures
            r@ == error_text(*self),
    {
        let mut r: Vec<u8> = Vec::new();
        proof {
            reveal_strlit("wrong number of arguments for '");
            reveal_strlit("' command");
            reveal_strlit("syntax error");
            reveal_strlit("value is not an integer or out of range");
            reveal_strlit("invalid expire time in 'set' command");
            reveal_strlit("unknown subcommand '");
            reveal_strlit("'. Try CONFIG HELP");
            reveal_strlit("general pattern matching unsupported");
            reveal_strlit("unknown command '");
            reveal_strlit("', with args beginning with: ");
            reveal_strlit("Unsupported PSYNC arguments");
        }
        match self {
            CommandError::WrongArity(name) => {
                push_str(&mut r, "wrong number of arguments for '");
                push_all(&mut r, name.as_slice());
                push_str(&mut r, "' command");
            },
            CommandError::Syntax => push_str(&mut r, "syntax error"),
            CommandError::NotInteger => push_str(&mut r, "value is not an integer or out of range"),
            CommandError::InvalidExpire => push_str(&mut r, "invalid expire time in 'set' command"),
            CommandError::UnknownSubcommand(sub) => {
                push_str(&mut r, "unknown subcommand '");
                push_all(&mut r, sub.as_slice());
                push_str(&mut r, "'. Try CONFIG HELP");
            },
            CommandError::PatternUnsupported => push_str(&mut r, "general pattern matching unsupported"),
            CommandError::UnknownCommand(name, args) => {
                push_str(&mut r, "unknown command '");
                push_all(&mut r, name.as_slice());
                push_str(&mut r, "', with args beginning with: ");
                push_quoted(&mut r, args);
            },
            CommandError::PsyncArguments => push_str(&mut r, "Unsupported PSYNC arguments"),
        }
        assert(r@ =~= error_text(*self));
        r
    }

    /// The reply line of the error.
    pub fn reply(&self) -> (r: Vec<u8>)
        ensures
            r@ == error_reply(*self),
    {
        proof {
            reveal_strlit("ERR ");
        }
        let mut r: Vec<u8> = Vec::new();
        r.push(45);
        push_str(&mut r, "ERR ");
        let m = self.message();
        push_all(&mut r, m.as_slice());
        r.push(13);
        r.push(10);
        assert(r@ =~= error_reply(*self));
        r
    }
}

/// What `SET` arguments ask of the store at time `now`.
pub open spec fn set_outcome(args: Seq<Seq<u8>>, now: int, r: Result<StoreCommand, CommandError>) -> bool {
    if args.len() == 2 {
        r matches Ok(StoreCommand::SetKey { key, value }) && key@ == args[0] && value@ == args[1]
    } else if args.len() == 4 {
        if lower(args[2]) != ascii("px"@) {
            r == Err::<StoreCommand, CommandError>(CommandError::Syntax)
        } else {
            match parse_bounded(args[3], u64::MAX as nat) {
                None => r == Err::<StoreCommand, CommandError>(CommandError::NotInteger),
                Some(ms) => if now + ms > u64::MAX {
                    r == Err::<StoreCommand, CommandError>(CommandError::InvalidExpire)
                } else {
                    r matches Ok(StoreCommand::SetEx { key, value, until }) && key@ == args[0]
                        && value@ == args[1] && until == now + ms
                },
            }
        }
    } else {
        r matches Err(CommandError::WrongArity(name)) && name@ == ascii("set"@)
    }
}

/// Reads `SET key value [PX milliseconds]` at time `now` into a store write;
/// the deadline is `now` plus the milliseconds.
pub fn handle_set(args: &[Vec<u8>], now: u64) -> (r: Result<StoreCommand, CommandError>)
    ensures
        set_outcome(byte_views(args@), now as int, r),
{
    proof {
        reveal_strlit("set");
        reveal_strlit("px");
    }
    if args.len() == 2 {
        return Ok(StoreCommand::SetKey { key: copy_bytes(args[0].as_slice()), value: copy_bytes(args[1].as_slice()) });
    }
    if args.len() != 4 {
        return Err(CommandError::WrongArity(lit("set")));
    }
    if !eq_ignore_case(args[2].as_slice(), lit("px").as_slice()) {
        return Err(CommandError::Syntax);
    }
    match parse_u64(args[3].as_slice()) {
        None => Err(CommandError::NotInteger),
        Some(ms) => {
            if ms > u64::MAX - now {
                Err(CommandError::InvalidExpire)
            } else {
                Ok(StoreCommand::SetEx {
                    key: copy_bytes(args[0].as_slice()),
                    value: copy_bytes(args[1].as_slice()),
                    until: now + ms,
                })
            }
        },
    }
}

} // verus!
