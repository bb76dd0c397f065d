//! RESP2 framing: appending replies to an output buffer, and cutting command
//! frames out of the bytes received so far.
use vstd::prelude::*;
use crate::text::{
    ascii, decimal, parse_count, parse_usize, push_all, push_decimal, push_signed, push_str,
    signed_decimal, split_words, words,
};
use crate::types::{array_header, bulk_frame, crlf, encode, int_frame, Resp};

verus! {

broadcast use vstd::string::group_string_axioms;

/// A line read from the input: its text without the line terminator, and the
/// number of bytes it took, terminator included.
pub struct RedisString {
    pub string: Vec<u8>,
    pub bytes: usize,
}

/// A decoded command: its words, and the number of bytes its frame took.
pub struct Command {
    pub payload: Vec<Vec<u8>>,
    pub length: usize,
}

/// A malformed frame; the connection that sent it is closed.
#[derive(PartialEq, Eq, Structural, Debug, Clone, Copy)]
pub enum ProtocolError {
    ExpectedDollar(u8),
    InvalidBulkLength,
    InvalidMultibulkLength,
    /// A bulk payload is not followed by `\r\n`.
    ExpectedCrlf,
}

impl Command {
    fn new(payload: Vec<Vec<u8>>, length: usize) -> (r: Self)
        ensures
            r.payload == payload,
            r.length == length,
    {
        Command { payload, length }
    }
}

/// The models of a list of byte strings.
pub open spec fn byte_views(v: Seq<Vec<u8>>) -> Seq<Seq<u8>> {
    v.map_values(|w: Vec<u8>| w@)
}

pub open spec fn ok_reply() -> Seq<u8> {
    ascii("+OK\r\n"@)
}

pub open spec fn nil_reply() -> Seq<u8> {
    ascii("$-1\r\n"@)
}

pub open spec fn wrongtype_reply() -> Seq<u8> {
    ascii("-WRONGTYPE Operation against a key holding the wrong kind of value\r\n"@)
}

/// `-<message>\r\n`
pub open spec fn error_line(msg: Seq<u8>) -> Seq<u8> {
    seq![45u8] + msg + crlf()
}

/// `+<line>\r\n`
pub open spec fn simple_line(s: Seq<u8>) -> Seq<u8> {
    seq![43u8] + s + crlf()
}

/// `$<len>\r\n<bytes>`, with no terminator after the payload.
pub open spec fn raw_bulk(b: Seq<u8>) -> Seq<u8> {
    seq![36u8] + decimal(b.len()) + crlf() + b
}

pub fn write_ok(out: &mut Vec<u8>)
    ensures
        final(out)@ == old(out)@ + ok_reply(),
{
    proof {
        reveal_strlit("+OK\r\n");
    }
    push_str(out, "+OK\r\n");
}

pub fn write_nil(out: &mut Vec<u8>)
    ensures
        final(out)@ == old(out)@ + nil_reply(),
{
    proof {
        reveal_strlit("$-1\r\n");
    }
    push_str(out, "$-1\r\n");
}

pub fn write_wrongtype(out: &mut Vec<u8>)
    ensures
        final(out)@ == old(out)@ + wrongtype_reply(),
{
    proof {
        reveal_strlit("-WRONGTYPE Operation against a key holding the wrong kind of value\r\n");
    }
    push_str(out, "-WRONGTYPE Operation against a key holding the wrong kind of value\r\n");
}

pub fn write_simple_error(out: &mut Vec<u8>, message: &[u8])
    ensures
        final(out)@ == old(out)@ + error_line(message@),
{
    out.push(45);
    push_all(out, message);
    out.push(13);
    out.push(10);
    assert(final(out)@ =~= old(out)@ + error_line(message@));
}

pub fn write_string(out: &mut Vec<u8>, string: &[u8])
    ensures
        final(out)@ == old(out)@ + bulk_frame(string@),
{
    out.push(36);
    push_decimal(out, string.len() as u128);
    out.push(13);
    out.push(10);
    push_all(out, string);
    out.push(13);
    out.push(10);
    assert(final(out)@ =~= old(out)@ + bulk_frame(string@));
}

pub fn write_bytes(out: &mut Vec<u8>, bytes: &[u8])
    ensures
        final(out)@ == old(out)@ + raw_bulk(bytes@),
{
    out.push(36);
    push_decimal(out, bytes.len() as u128);
    out.push(13);
    out.push(10);
    push_all(out, bytes);
    assert(final(out)@ =~= old(out)@ + raw_bulk(bytes@));
}

pub fn write_simple_string(out: &mut Vec<u8>, string: &[u8])
    ensures
        final(out)@ == old(out)@ + simple_line(string@),
{
    out.push(43);
    push_all(out, string);
    out.push(13);
    out.push(10);
    assert(final(out)@ =~= old(out)@ + simple_line(string@));
}

pub fn write_integer(out: &mut Vec<u8>, number: i64)
    ensures
        final(out)@ == old(out)@ + int_frame(number as int),
{
    out.push(58);
    push_signed(out, number);
    out.push(13);
    out.push(10);
    assert(final(out)@ =~= old(out)@ + int_frame(number as int));
}

pub fn write_array_size(out: &mut Vec<u8>, size: usize)
    ensures
        final(out)@ == old(out)@ + array_header(size as nat),
{
    out.push(42);
    push_decimal(out, size as u128);
    out.push(13);
    out.push(10);
    assert(final(out)@ =~= old(out)@ + array_header(size as nat));
}

/// The index of the first line feed of `s` at or after `i`, or -1.
pub open spec fn find_nl(s: Seq<u8>, i: int) -> int
    decreases s.len() - i,
{
    if i < 0 || i >= s.len() {
        -1
    } else if s[i] == 10 {
        i
    } else {
        find_nl(s, i + 1)
    }
}

/// A line's text: without its line feed, and without a carriage return before it.
pub open spec fn strip_cr(t: Seq<u8>) -> Seq<u8> {
    if t.len() > 0 && t.last() == 13 {
        t.drop_last()
    } else {
        t
    }
}

/// The line that starts at `i`: its text and the bytes it takes; `None` while
/// no line feed has arrived.
pub open spec fn line_at(s: Seq<u8>, i: int) -> Option<(Seq<u8>, nat)> {
    let e = find_nl(s, i);
    if e < 0 {
        None
    } else {
        Some((strip_cr(s.subrange(i, e)), (e + 1 - i) as nat))
    }
}

/// The outcome of cutting one frame out of the received bytes.
pub enum Frame {
    NeedMore,
    Done(Seq<Seq<u8>>, nat),
    Failed(ProtocolError),
}

/// `n` more bulk strings from `pos` on, after the strings `acc` already read.
pub open spec fn bulks(s: Seq<u8>, pos: nat, n: nat, acc: Seq<Seq<u8>>) -> Frame
    decreases n,
{
    if n == 0 {
        Frame::Done(acc, pos)
    } else {
        match line_at(s, pos as int) {
            None => Frame::NeedMore,
            Some((l, k)) => {
                if l.len() == 0 {
                    Frame::Failed(ProtocolError::ExpectedDollar(32))
                } else if l[0] != 36 {
                    Frame::Failed(ProtocolError::ExpectedDollar(l[0]))
                } else {
                    match parse_count(l.drop_first()) {
                        None => Frame::Failed(ProtocolError::InvalidBulkLength),
                        Some(len) => {
                            let start = pos + k;
                            if s.len() < start + len + 2 {
                                Frame::NeedMore
                            } else if s[(start + len) as int] != 13 || s[(start + len + 1) as int] != 10 {
                                Frame::Failed(ProtocolError::ExpectedCrlf)
                            } else {
                                bulks(
                                    s,
                                    (start + len + 2) as nat,
                                    (n - 1) as nat,
                                    acc.push(s.subrange(start as int, (start + len) as int)),
                                )
                            }
                        },
                    }
                }
            },
        }
    }
}

/// The command frame at the start of `s`: a multi-bulk array of bulk strings,
/// or else one inline line split at white space.
pub open spec fn frame(s: Seq<u8>) -> Frame {
    match line_at(s, 0) {
        None => Frame::NeedMore,
        Some((l, k)) => {
            if l.len() > 0 && l[0] == 42 {
                match parse_count(l.drop_first()) {
                    None => Frame::Failed(ProtocolError::InvalidMultibulkLength),
                    Some(n) => bulks(s, k, n, seq![]),
                }
            } else {
                Frame::Done(words(l), k)
            }
        },
    }
}

/// A raw bulk at the start of `s`: `$<N>\r\n` and then `N` bytes.
pub open spec fn raw_bulk_frame(s: Seq<u8>) -> Frame {
    match line_at(s, 0) {
        None => Frame::NeedMore,
        Some((l, k)) => {
            if l.len() == 0 {
                Frame::Failed(ProtocolError::ExpectedDollar(32))
            } else if l[0] != 36 {
                Frame::Failed(ProtocolError::ExpectedDollar(l[0]))
            } else {
                match parse_count(l.drop_first()) {
                    None => Frame::Failed(ProtocolError::InvalidBulkLength),
                    Some(len) => if s.len() < k + len {
                        Frame::NeedMore
                    } else {
                        Frame::Done(seq![s.subrange(k as int, (k + len) as int)], k + len)
                    },
                }
            }
        },
    }
}

/// Whether a decoding result agrees with a frame outcome.
pub open spec fn decoded(r: Result<Option<Command>, ProtocolError>, f: Frame) -> bool {
    match f {
        Frame::NeedMore => r == Ok::<Option<Command>, ProtocolError>(None),
        Frame::Done(p, n) => r matches Ok(Some(c)) && byte_views(c.payload@) == p && c.length == n,
        Frame::Failed(e) => r == Err::<Option<Command>, ProtocolError>(e),
    }
}

proof fn lemma_find_nl_bound(s: Seq<u8>, i: int)
    requires
        0 <= i,
    ensures
        find_nl(s, i) == -1 || (i <= find_nl(s, i) < s.len() && s[find_nl(s, i)] == 10),
        forall|j: int| i <= j < s.len() && (find_nl(s, i) == -1 || j < find_nl(s, i)) ==> s[j] != 10,
    decreases s.len() - i,
{
    if 0 <= i < s.len() && s[i] != 10 {
        lemma_find_nl_bound(s, i + 1);
        assert forall|j: int| i <= j < s.len() && (find_nl(s, i) == -1 || j < find_nl(s, i)) implies s[j] != 10 by {
            if j > i {
                assert(i + 1 <= j);
            }
        }
    }
}

/// The line that starts at `start`, if a line feed has arrived.
pub fn get_string(buf: &[u8], start: usize) -> (r: Option<RedisString>)
    requires
        start <= buf@.len(),
    ensures
        r matches Some(rs) ==> line_at(buf@, start as int) == Some((rs.string@, rs.bytes as nat)),
        r is None ==> line_at(buf@, start as int) is None,
{
    let mut e: usize = start;
    while e < buf.len() && buf[e] != 10
        invariant
            start <= e <= buf@.len(),
            find_nl(buf@, start as int) == find_nl(buf@, e as int),
        decreases buf@.len() - e,
    {
        e = e + 1;
    }
    if e >= buf.len() {
        return None;
    }
    let mut end: usize = e;
    if e > start && buf[e - 1] == 13 {
        end = e - 1;
    }
    let mut string: Vec<u8> = Vec::new();
    let mut i: usize = start;
    while i < end
        invariant
            start <= i <= end <= e < buf@.len(),
            string@ == buf@.subrange(start as int, i as int),
        decreases end - i,
    {
        string.push(buf[i]);
        i = i + 1;
        assert(string@ =~= buf@.subrange(start as int, i as int));
    }
    assert(string@ =~= strip_cr(buf@.subrange(start as int, e as int)));
    Some(RedisString { string, bytes: e + 1 - start })
}

/// The message of a missing `$` before a bulk string.
pub fn format_error(chr: u8) -> (r: Vec<u8>)
    ensures
        r@ == ascii("Protocol error: expected '$', got '"@) + seq![chr] + ascii("'"@),
{
    let mut r: Vec<u8> = Vec::new();
    proof {
        reveal_strlit("Protocol error: expected '$', got '");
        reveal_strlit("'");
    }
    push_str(&mut r, "Protocol error: expected '$', got '");
    r.push(chr);
    push_str(&mut r, "'");
    r
}

/// The text of a protocol error.
pub open spec fn protocol_error_text(e: ProtocolError) -> Seq<u8> {
    match e {
        ProtocolError::ExpectedDollar(c) => ascii("Protocol error: expected '$', got '"@) + seq![c] + ascii("'"@),
        ProtocolError::InvalidBulkLength => ascii("Protocol error: invalid bulk length"@),
        ProtocolError::InvalidMultibulkLength => ascii("Protocol error: invalid multibulk length"@),
        ProtocolError::ExpectedCrlf => ascii("Protocol error: expected CRLF after bulk payload"@),
    }
}

impl ProtocolError {
    /// The text of the error.
    pub fn message(&self) -> (r: Vec<u8>)
        ensures
            r@ == protocol_error_text(*self),
    {
        proof {
            reveal_strlit("Protocol error: invalid bulk length");
            reveal_strlit("Protocol error: invalid multibulk length");
            reveal_strlit("Protocol error: expected CRLF after bulk payload");
        }
        match self {
            ProtocolError::ExpectedDollar(c) => format_error(*c),
            ProtocolError::InvalidBulkLength => crate::text::lit("Protocol error: invalid bulk length"),
            ProtocolError::InvalidMultibulkLength => crate::text::lit("Protocol error: invalid multibulk length"),
            ProtocolError::ExpectedCrlf => crate::text::lit("Protocol error: expected CRLF after bulk payload"),
        }
    }
}

/// The bytes of the bulk-string header line `$<len>` that starts at `pos`:
/// `Ok(None)` while the line is incomplete, else its length and payload start.
fn read_bulk_length(buf: &[u8], pos: usize) -> (r: Result<Option<(usize, usize)>, ProtocolError>)
    requires
        pos <= buf@.len(),
    ensures
        r matches Ok(Some((len, start))) ==> pos < start <= buf@.len(),
        match line_at(buf@, pos as int) {
            None => r == Ok::<Option<(usize, usize)>, ProtocolError>(None),
            Some((l, k)) => if l.len() == 0 {
                r == Err::<Option<(usize, usize)>, ProtocolError>(ProtocolError::ExpectedDollar(32))
            } else if l[0] != 36 {
                r == Err::<Option<(usize, usize)>, ProtocolError>(ProtocolError::ExpectedDollar(l[0]))
            } else {
                match parse_count(l.drop_first()) {
                    None => r == Err::<Option<(usize, usize)>, ProtocolError>(ProtocolError::InvalidBulkLength),
                    Some(len) => r == Ok::<Option<(usize, usize)>, ProtocolError>(Some((len as usize, (pos + k) as usize))),
                }
            },
        },
{
    let _n = buf.len();
    match get_string(buf, pos) {
        None => Ok(None),
        Some(line) => {
            proof {
                lemma_find_nl_bound(buf@, pos as int);
                assert(pos + line.bytes <= buf@.len());
            }
            if line.string.len() == 0 {
                Err(ProtocolError::ExpectedDollar(32))
            } else if line.string[0] != 36 {
                Err(ProtocolError::ExpectedDollar(line.string[0]))
            } else {
                let digits = line.string.as_slice().split_at(1).1;
                assert(digits@ =~= line.string@.drop_first());
                match parse_usize(digits) {
                    None => Err(ProtocolError::InvalidBulkLength),
                    Some(len) => Ok(Some((len, pos + line.bytes))),
                }
            }
        },
    }
}

/// A raw bulk (`$<N>\r\n` and `N` bytes, no terminator) at the start of `buf`,
/// with the number of bytes it took.
pub fn read_bulk_bytes(buf: &[u8]) -> (r: Result<Option<(Vec<u8>, usize)>, ProtocolError>)
    ensures
        match raw_bulk_frame(buf@) {
            Frame::NeedMore => r matches Ok(None),
            Frame::Done(p, n) => r matches Ok(Some((b, m))) && p == seq![b@] && m == n,
            Frame::Failed(e) => r == Err::<Option<(Vec<u8>, usize)>, ProtocolError>(e),
        },
{
    let _n = buf.len();
    proof {
        lemma_find_nl_bound(buf@, 0);
    }
    match read_bulk_length(buf, 0) {
        Err(e) => Err(e),
        Ok(None) => Ok(None),
        Ok(Some((len, start))) => {
            if len > buf.len() - start {
                proof {
                    lemma_find_nl_bound(buf@, 0);
                }
                Ok(None)
            } else {
                let mut b: Vec<u8> = Vec::new();
                let mut i: usize = start;
                let end = start + len;
                while i < end
                    invariant
                        end == start + len,
                        start <= i <= start + len <= buf@.len(),
                        b@ == buf@.subrange(start as int, i as int),
                    decreases start + len - i,
                {
                    b.push(buf[i]);
                    i = i + 1;
                    assert(b@ =~= buf@.subrange(start as int, i as int));
                }
                Ok(Some((b, start + len)))
            }
        },
    }
}

/// The next command frame at the start of `buf`: `Ok(None)` while the frame
/// is incomplete, else its words and the number of bytes it took.
pub fn read_command(buf: &[u8]) -> (r: Result<Option<Command>, ProtocolError>)
    ensures
        decoded(r, frame(buf@)),
{
    let _n = buf.len();
    let text = match get_string(buf, 0) {
        None => {
            return Ok(None);
        },
        Some(t) => t,
    };
    proof {
        lemma_find_nl_bound(buf@, 0);
    }
    if text.string.len() > 0 && text.string[0] == 42 {
        let digits = text.string.as_slice().split_at(1).1;
        assert(digits@ =~= text.string@.drop_first());
        let chunks = match parse_usize(digits) {
            None => {
                return Err(ProtocolError::InvalidMultibulkLength);
            },
            Some(n) => n,
        };
        let mut cmd: Vec<Vec<u8>> = Vec::new();
        let mut pos: usize = text.bytes;
        let mut left: usize = chunks;
        assert(byte_views(cmd@) =~= Seq::<Seq<u8>>::empty());
        while left > 0
            invariant
                pos <= buf@.len(),
                frame(buf@) == bulks(buf@, pos as nat, left as nat, byte_views(cmd@)),
            decreases left,
        {
            match read_bulk_length(buf, pos) {
                Err(e) => {
                    return Err(e);
                },
                Ok(None) => {
                    return Ok(None);
                },
                Ok(Some((len, start))) => {
                    proof {
                        lemma_find_nl_bound(buf@, pos as int);
                    }
                    if len > buf.len() - start || buf.len() - start - len < 2 {
                        return Ok(None);
                    }
                    if buf[start + len] != 13 || buf[start + len + 1] != 10 {
                        return Err(ProtocolError::ExpectedCrlf);
                    }
                    let mut item: Vec<u8> = Vec::new();
                    let mut i: usize = start;
                    let end = start + len;
                    while i < end
                        invariant
                            end == start + len,
                            start <= i <= start + len <= buf@.len(),
                            item@ == buf@.subrange(start as int, i as int),
                        decreases start + len - i,
                    {
                        item.push(buf[i]);
                        i = i + 1;
                        assert(item@ =~= buf@.subrange(start as int, i as int));
                    }
                    let ghost before = cmd@;
                    cmd.push(item);
                    assert(byte_views(cmd@) =~= byte_views(before).push(
                        buf@.subrange(start as int, (start + len) as int),
                    ));
                    pos = start + len + 2;
                    left = left - 1;
                },
            }
        }
        Ok(Some(Command::new(cmd, pos)))
    } else {
        let elements = split_words(text.string.as_slice());
        Ok(Some(Command::new(elements, text.bytes)))
    }
}

} // verus!

verus! {

/// The concatenated bulk frames of a list of byte strings.
pub open spec fn bulk_frames(q: Seq<Seq<u8>>) -> Seq<u8> {
    crate::types::encode_all(crate::client::bulks(q))
}

proof fn lemma_find_nl_at(s: Seq<u8>, i: int, e: int)
    requires
        0 <= i <= e < s.len(),
        s[e] == 10,
        forall|j: int| i <= j < e ==> s[j] != 10,
    ensures
        find_nl(s, i) == e,
    decreases e - i,
{
    if i < e {
        lemma_find_nl_at(s, i + 1, e);
    }
}

/// A line `<c><digits of n>\r\n` at `pos` reads as its first byte and digits.
#[verifier::rlimit(40)]
proof fn lemma_header_line(s: Seq<u8>, pos: int, c: u8, n: nat)
    requires
        c != 10,
        0 <= pos,
        pos + decimal(n).len() + 3 <= s.len(),
        s.subrange(pos, pos + decimal(n).len() + 3) == seq![c] + decimal(n) + crlf(),
        n <= usize::MAX,
    ensures
        line_at(s, pos) == Some((seq![c] + decimal(n), (decimal(n).len() + 3) as nat)),
        parse_count((seq![c] + decimal(n)).drop_first()) == Some(n),
{
    crate::text::lemma_decimal_digits(n);
    let d = decimal(n);
    let e = pos + d.len() + 2;
    let h = seq![c] + d + crlf();
    let sub = s.subrange(pos, pos + d.len() + 3);
    assert(h.len() == d.len() + 3);
    assert(h[0] == c);
    assert forall|k: int| 1 <= k <= d.len() implies h[k] != 10 by {
        assert(h[k] == d[k - 1]);
        assert(crate::text::is_digit(d[k - 1]));
    }
    assert(h[d.len() + 1int] == 13);
    assert(h[d.len() + 2int] == 10);
    assert forall|j: int| pos <= j < e implies s[j] != 10 by {
        assert(s[j] == sub[j - pos]);
    }
    assert(s[e] == sub[e - pos]);
    lemma_find_nl_at(s, pos, e);
    assert(s.subrange(pos, e) =~= seq![c] + d + seq![13u8]) by {
        assert forall|k: int| 0 <= k < e - pos implies s.subrange(pos, e)[k] == h[k] by {
            assert(s.subrange(pos, e)[k] == sub[k]);
        }
    }
    assert(strip_cr(s.subrange(pos, e)) =~= seq![c] + d);
    assert((seq![c] + d).drop_first() =~= d);
}

proof fn lemma_bulks_read(s: Seq<u8>, pos: int, q: Seq<Seq<u8>>, acc: Seq<Seq<u8>>)
    requires
        0 <= pos,
        pos + bulk_frames(q).len() <= s.len(),
        s.subrange(pos, pos + bulk_frames(q).len()) == bulk_frames(q),
        forall|i: int| 0 <= i < q.len() ==> (#[trigger] q[i]).len() <= usize::MAX,
    ensures
        bulks(s, pos as nat, q.len(), acc) == Frame::Done(acc + q, (pos + bulk_frames(q).len()) as nat),
    decreases q.len(),
{
    if q.len() == 0 {
        assert(acc + q =~= acc);
    } else {
        let bs = crate::client::bulks(q);
        let x = q[0];
        let rest = q.drop_first();
        assert(bs.subrange(1, bs.len() as int) =~= crate::client::bulks(rest));
        assert(bs[0] == Resp::Bulk(x));
        let f = bulk_frame(x);
        assert(bs.len() == q.len());
        assert(encode(bs[0]) == f);
        assert(crate::types::encode_all(bs) == encode(bs[0]) + crate::types::encode_all(bs.subrange(1, bs.len() as int)));
        assert(bulk_frames(q) == f + bulk_frames(rest));
        let d = decimal(x.len());
        let hl: int = d.len() + 3int;
        assert(f == (seq![36u8] + d + crlf()) + x + crlf()) by {
            assert(f =~= (seq![36u8] + d + crlf()) + x + crlf());
        }
        assert(s.subrange(pos, pos + hl) =~= seq![36u8] + d + crlf()) by {
            assert forall|j: int| 0 <= j < hl implies s.subrange(pos, pos + hl)[j] == (seq![36u8] + d + crlf())[j] by {
                assert(s.subrange(pos, pos + hl)[j] == s.subrange(pos, pos + bulk_frames(q).len())[j]);
                assert(bulk_frames(q)[j] == f[j]);
            }
        }
        lemma_header_line(s, pos, 36u8, x.len());
        let start = pos + hl;
        assert(s.subrange(start, start + x.len()) =~= x) by {
            assert forall|j: int| 0 <= j < x.len() implies s.subrange(start, start + x.len())[j] == x[j] by {
                assert(s[start + j] == s.subrange(pos, pos + bulk_frames(q).len())[hl + j]);
                assert(bulk_frames(q)[hl + j] == f[hl + j]);
            }
        }
        let next = start + x.len() + 2;
        assert(next == pos + f.len());
        assert(s[start + x.len()] == 13) by {
            assert(s[start + x.len()] == s.subrange(pos, pos + bulk_frames(q).len())[hl + x.len()]);
            assert(bulk_frames(q)[hl + x.len()] == f[hl + x.len()]);
        }
        assert(s[start + x.len() + 1] == 10) by {
            assert(s[start + x.len() + 1] == s.subrange(pos, pos + bulk_frames(q).len())[hl + x.len() + 1]);
            assert(bulk_frames(q)[hl + x.len() + 1] == f[hl + x.len() + 1]);
        }
        assert(s.subrange(next, next + bulk_frames(rest).len()) =~= bulk_frames(rest)) by {
            assert forall|j: int| 0 <= j < bulk_frames(rest).len() implies s.subrange(next, next + bulk_frames(rest).len())[j] == bulk_frames(rest)[j] by {
                assert(s[next + j] == s.subrange(pos, pos + bulk_frames(q).len())[f.len() + j]);
                assert(bulk_frames(q)[f.len() + j] == bulk_frames(rest)[j]);
            }
        }
        assert forall|i: int| 0 <= i < rest.len() implies (#[trigger] rest[i]).len() <= usize::MAX by {
            assert(rest[i] == q[i + 1]);
        }
        lemma_bulks_read(s, next, rest, acc.push(x));
        assert(acc.push(x) + rest =~= acc + q);
    }
}

/// Decoding the encoding of a command gives the command back, and the frame
/// length is exactly the number of bytes of the encoding, whatever follows it.
pub proof fn lemma_command_round_trip(words: Seq<Seq<u8>>, rest: Seq<u8>)
    requires
        words.len() <= usize::MAX,
        forall|i: int| 0 <= i < words.len() ==> (#[trigger] words[i]).len() <= usize::MAX,
    ensures
        frame(encode(Resp::Array(crate::client::bulks(words))) + rest)
            == Frame::Done(words, encode(Resp::Array(crate::client::bulks(words))).len()),
{
    let bs = crate::client::bulks(words);
    let enc = encode(Resp::Array(bs));
    let s = enc + rest;
    let d = decimal(words.len());
    let hl: int = d.len() + 3int;
    assert(enc == array_header(words.len()) + bulk_frames(words));
    assert(s.subrange(0, hl) =~= seq![42u8] + d + crlf());
    lemma_header_line(s, 0, 42u8, words.len());
    assert(s.subrange(hl, hl + bulk_frames(words).len()) =~= bulk_frames(words));
    lemma_bulks_read(s, hl, words, seq![]);
    assert(Seq::<Seq<u8>>::empty() + words =~= words);
}

} // verus!

verus! {

/// A raw bulk `$<N>\r\n` followed by `N` bytes is read back whole, and the
/// read stops right after the payload, whatever follows it.
pub proof fn lemma_raw_bulk_round_trip(payload: Seq<u8>, rest: Seq<u8>)
    requires
        payload.len() <= usize::MAX,
    ensures
        raw_bulk_frame(raw_bulk(payload) + rest) == Frame::Done(seq![payload], raw_bulk(payload).len()),
{
    let s = raw_bulk(payload) + rest;
    let d = decimal(payload.len());
    let hl: int = d.len() + 3int;
    assert(s.subrange(0, hl) =~= seq![36u8] + d + crlf());
    lemma_header_line(s, 0, 36u8, payload.len());
    assert(s.subrange(hl, hl + payload.len()) =~= payload);
}

} // verus!
