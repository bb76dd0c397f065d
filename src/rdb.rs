//! The snapshot reader: a Redis RDB image, read as a cursor over its bytes.
use vstd::prelude::*;
use crate::text::{ascii, bytes_eq, copy_bytes, lit, parse_bounded, parse_u64, push_signed, signed_decimal};
use crate::types::{RedisType, Resp};

verus! {

broadcast use vstd::string::group_string_axioms;

#[derive(PartialEq, Eq, Structural, Debug, Clone, Copy)]
pub enum EncodedLength {
    Int(u32),
    Special(u8),
}

#[derive(PartialEq, Eq, Structural, Debug, Clone, Copy)]
pub enum RdbError {
    /// The image ends in the middle of an item.
    Truncated,
    /// The image does not start with `REDIS`.
    NotRdb,
    /// The four version bytes are not a decimal number.
    BadVersion,
    /// An unexpected byte before the first database, and the offset after it.
    UnknownByte(u8, usize),
    /// The first database is not database 0.
    MissingDb0,
    /// Database 0 does not start with its hash-table sizes.
    MissingHashSize,
    /// A compressed string.
    Compressed,
    UnknownEncoding,
    /// A value of a type other than string.
    UnsupportedType(u8),
    UnrecognizedCode(u8),
}

/// An entry of the snapshot: a key, its value, and its deadline in
/// milliseconds since the epoch, if it has one.
pub struct RedisFileEntry {
    pub key: Vec<u8>,
    pub value: RedisType,
    pub expires: Option<u64>,
}

pub open spec fn pow256(k: nat) -> nat
    decreases k,
{
    if k == 0 {
        1
    } else {
        256 * pow256((k - 1) as nat)
    }
}

/// The value of bytes read as a little-endian unsigned integer.
pub open spec fn le_value(bs: Seq<u8>) -> nat
    decreases bs.len(),
{
    if bs.len() == 0 {
        0
    } else {
        (bs[0] + 256 * le_value(bs.drop_first())) as nat
    }
}

/// The value of bytes read as a big-endian unsigned integer.
pub open spec fn be_value(bs: Seq<u8>) -> nat
    decreases bs.len(),
{
    if bs.len() == 0 {
        0
    } else {
        (be_value(bs.drop_last()) * 256 + bs.last()) as nat
    }
}

/// The value of bytes read as a little-endian two's-complement integer.
pub open spec fn le_signed(bs: Seq<u8>) -> int {
    let v = le_value(bs);
    if 2 * v >= pow256(bs.len()) {
        v - pow256(bs.len())
    } else {
        v as int
    }
}

/// A length-encoded integer at `p`, and the position after it.
pub open spec fn length_at(s: Seq<u8>, p: int) -> Option<(EncodedLength, int)> {
    if p < 0 || p >= s.len() {
        None
    } else {
        let b = s[p];
        let low = b % 64;
        if b / 64 == 0 {
            Some((EncodedLength::Int(low as u32), p + 1))
        } else if b / 64 == 1 {
            if p + 2 > s.len() {
                None
            } else {
                Some((EncodedLength::Int((low * 256 + s[p + 1]) as u32), p + 2))
            }
        } else if b / 64 == 2 {
            if p + 5 > s.len() {
                None
            } else {
                Some((EncodedLength::Int(be_value(s.subrange(p + 1, p + 5)) as u32), p + 5))
            }
        } else {
            Some((EncodedLength::Special(low as u8), p + 1))
        }
    }
}

/// An encoded string at `p`, and the position after it.
pub open spec fn string_at(s: Seq<u8>, p: int) -> Result<(Seq<u8>, int), RdbError> {
    match length_at(s, p) {
        None => Err(RdbError::Truncated),
        Some((EncodedLength::Int(n), q)) => if q + n > s.len() {
            Err(RdbError::Truncated)
        } else {
            Ok((s.subrange(q, q + n), q + n))
        },
        Some((EncodedLength::Special(code), q)) => {
            let w: int = if code == 0 { 1 } else if code == 1 { 2 } else { 4 };
            if code == 3 {
                Err(RdbError::Compressed)
            } else if code > 3 {
                Err(RdbError::UnknownEncoding)
            } else if q + w > s.len() {
                Err(RdbError::Truncated)
            } else {
                Ok((signed_decimal(le_signed(s.subrange(q, q + w))), q + w))
            }
        },
    }
}

/// The auxiliary fields from `p` on, up to database 0 and past its hash-table
/// sizes: the fields read (after `meta`), and the position of the first entry.
pub open spec fn preamble_at(s: Seq<u8>, p: int, meta: Seq<(Seq<u8>, Seq<u8>)>) -> Result<(Seq<(Seq<u8>, Seq<u8>)>, int), RdbError>
    decreases s.len() - p,
{
    if p < 0 || p >= s.len() {
        Err(RdbError::Truncated)
    } else if s[p] == 0xfa {
        match string_at(s, p + 1) {
            Err(e) => Err(e),
            Ok((k, q)) => match string_at(s, q) {
                Err(e) => Err(e),
                Ok((v, q2)) => if q2 <= p {
                    Err(RdbError::Truncated)
                } else {
                    preamble_at(s, q2, meta.push((k, v)))
                },
            },
        }
    } else if s[p] == 0xfe {
        if p + 1 >= s.len() {
            Err(RdbError::Truncated)
        } else if s[p + 1] != 0 {
            Err(RdbError::MissingDb0)
        } else if p + 2 >= s.len() {
            Err(RdbError::Truncated)
        } else if s[p + 2] != 0xfb {
            Err(RdbError::MissingHashSize)
        } else {
            match length_at(s, p + 3) {
                None => Err(RdbError::Truncated),
                Some((_, q)) => match length_at(s, q) {
                    None => Err(RdbError::Truncated),
                    Some((_, q2)) => Ok((meta, q2)),
                },
            }
        }
    } else {
        Err(RdbError::UnknownByte(s[p], (p + 1) as usize))
    }
}

/// The header of an image: its version, its auxiliary fields, and where the
/// entries of database 0 start.
pub open spec fn header(s: Seq<u8>) -> Result<(nat, Seq<(Seq<u8>, Seq<u8>)>, int), RdbError> {
    if s.len() < 9 {
        Err(RdbError::Truncated)
    } else if s.subrange(0, 5) != ascii("REDIS"@) {
        Err(RdbError::NotRdb)
    } else {
        match parse_bounded(s.subrange(5, 9), 65535) {
            None => Err(RdbError::BadVersion),
            Some(v) => match preamble_at(s, 9, seq![]) {
                Err(e) => Err(e),
                Ok((meta, q)) => Ok((v, meta, q)),
            },
        }
    }
}

/// The entry at `p` (key, value, deadline) and the position after it; `None`
/// at the end of the database or of the image.
pub open spec fn entry_at(s: Seq<u8>, p: int) -> Result<Option<(Seq<u8>, Seq<u8>, Option<int>, int)>, RdbError>
    decreases s.len() - p,
{
    if p < 0 || p >= s.len() {
        Err(RdbError::Truncated)
    } else {
        let b = s[p];
        if b == 0 {
            match string_at(s, p + 1) {
                Err(e) => Err(e),
                Ok((k, q)) => match string_at(s, q) {
                    Err(e) => Err(e),
                    Ok((v, q2)) => Ok(Some((k, v, None, q2))),
                },
            }
        } else if b <= 14 {
            match string_at(s, p + 1) {
                Err(e) => Err(e),
                Ok(_) => Err(RdbError::UnsupportedType(b)),
            }
        } else if b == 0xfc || b == 0xfd {
            let w: int = if b == 0xfc { 8 } else { 4 };
            if p + 1 + w > s.len() {
                Err(RdbError::Truncated)
            } else {
                let raw = le_value(s.subrange(p + 1, p + 1 + w));
                let ms: int = if b == 0xfc { raw as int } else { (raw * 1000) as int };
                match entry_at(s, p + 1 + w) {
                    Err(e) => Err(e),
                    Ok(None) => Ok(None),
                    Ok(Some((k, v, _, q))) => Ok(Some((k, v, Some(ms), q))),
                }
            }
        } else if b == 0xfe || b == 0xff {
            Ok(None)
        } else {
            Err(RdbError::UnrecognizedCode(b))
        }
    }
}

proof fn lemma_pow256_values()
    ensures
        pow256(1) == 256,
        pow256(2) == 65536,
        pow256(4) == 4294967296,
        pow256(8) == 18446744073709551616,
{
    assert(pow256(0) == 1);
    assert(pow256(1) == 256);
    assert(pow256(2) == 65536);
    assert(pow256(3) == 16777216);
    assert(pow256(4) == 4294967296);
    assert(pow256(5) == 1099511627776);
    assert(pow256(6) == 281474976710656);
    assert(pow256(7) == 72057594037927936);
    assert(pow256(8) == 18446744073709551616);
}

proof fn lemma_pow256_mono(a: nat, b: nat)
    requires
        a <= b,
    ensures
        pow256(a) <= pow256(b),
    decreases b,
{
    if a < b {
        lemma_pow256_mono(a, (b - 1) as nat);
    }
}

/// The little-endian value of `n` bytes at `p`.
fn read_le(s: &[u8], p: usize, n: usize) -> (r: u64)
    requires
        n <= 8,
        p + n <= s@.len(),
    ensures
        r == le_value(s@.subrange(p as int, p + n)),
        r < pow256(n as nat),
{
    let len = s.len();
    let mut acc: u64 = 0;
    let mut i: usize = n;
    proof {
        lemma_pow256_values();
        assert(s@.subrange(p + n, p + n) =~= Seq::<u8>::empty());
    }
    while i > 0
        invariant
            i <= n <= 8,
            len == s@.len(),
            p + n <= s@.len(),
            acc == le_value(s@.subrange(p + i, p + n)),
            acc < pow256((n - i) as nat),
        decreases i,
    {
        let b = s[p + i - 1];
        proof {
            lemma_pow256_values();
            lemma_pow256_mono((n - i + 1) as nat, 8);
            let big = pow256((n - i) as nat);
            assert(pow256((n - i + 1) as nat) == 256 * big);
            assert(acc * 256 + b < 256 * big) by (nonlinear_arith)
                requires acc < big, b < 256;
            let t = s@.subrange(p + i - 1, p + n);
            assert(t.drop_first() =~= s@.subrange(p + i, p + n));
        }
        acc = acc * 256 + b as u64;
        i = i - 1;
    }
    acc
}

/// The big-endian value of 4 bytes at `p`.
fn read_be32(s: &[u8], p: usize) -> (r: u32)
    requires
        p + 4 <= s@.len(),
    ensures
        r == be_value(s@.subrange(p as int, p + 4)),
{
    let len = s.len();
    let mut acc: u64 = 0;
    let mut i: usize = 0;
    proof {
        lemma_pow256_values();
        assert(s@.subrange(p as int, p as int) =~= Seq::<u8>::empty());
    }
    while i < 4
        invariant
            i <= 4,
            len == s@.len(),
            p + 4 <= s@.len(),
            acc == be_value(s@.subrange(p as int, p + i)),
            acc < pow256(i as nat),
        decreases 4 - i,
    {
        let b = s[p + i];
        proof {
            lemma_pow256_values();
            lemma_pow256_mono((i + 1) as nat, 4);
            let big = pow256(i as nat);
            assert(acc * 256 + b < 256 * big) by (nonlinear_arith)
                requires acc < big, b < 256;
            assert(s@.subrange(p as int, p + i + 1).drop_last() =~= s@.subrange(p as int, p + i));
        }
        acc = acc * 256 + b as u64;
        i = i + 1;
    }
    acc as u32
}

fn read_length_encoded(s: &[u8], p: usize) -> (r: Option<(EncodedLength, usize)>)
    ensures
        match length_at(s@, p as int) {
            None => r is None,
            Some((e, q)) => r == Some((e, q as usize)) && q <= s@.len(),
        },
{
    let n = s.len();
    if p >= n {
        return None;
    }
    let b = s[p];
    let low = b % 64;
    if b / 64 == 0 {
        Some((EncodedLength::Int(low as u32), p + 1))
    } else if b / 64 == 1 {
        if n - p < 2 {
            None
        } else {
            Some((EncodedLength::Int(low as u32 * 256 + s[p + 1] as u32), p + 2))
        }
    } else if b / 64 == 2 {
        if n - p < 5 {
            None
        } else {
            Some((EncodedLength::Int(read_be32(s, p + 1)), p + 5))
        }
    } else {
        Some((EncodedLength::Special(low), p + 1))
    }
}

fn read_string(s: &[u8], p: usize) -> (r: Result<(Vec<u8>, usize), RdbError>)
    ensures
        match string_at(s@, p as int) {
            Err(e) => r == Err::<(Vec<u8>, usize), RdbError>(e),
            Ok((v, q)) => r matches Ok((w, q2)) && w@ == v && q2 == q && q <= s@.len(),
        },
{
    let n = s.len();
    match read_length_encoded(s, p) {
        None => Err(RdbError::Truncated),
        Some((EncodedLength::Int(len), q)) => {
            if len as usize > n - q {
                Err(RdbError::Truncated)
            } else {
                let end = q + len as usize;
                let mut out: Vec<u8> = Vec::new();
                let mut i: usize = q;
                while i < end
                    invariant
                        q <= i <= end <= s@.len(),
                        out@ == s@.subrange(q as int, i as int),
                    decreases end - i,
                {
                    out.push(s[i]);
                    i = i + 1;
                    assert(out@ =~= s@.subrange(q as int, i as int));
                }
                Ok((out, end))
            }
        },
        Some((EncodedLength::Special(code), q)) => {
            if code == 3 {
                return Err(RdbError::Compressed);
            }
            if code > 3 {
                return Err(RdbError::UnknownEncoding);
            }
            let w: usize = if code == 0 { 1 } else if code == 1 { 2 } else { 4 };
            if w > n - q {
                return Err(RdbError::Truncated);
            }
            let raw = read_le(s, q, w);
            proof {
                lemma_pow256_values();
            }
            let half: u64 = if w == 1 { 128 } else if w == 2 { 32768 } else { 2147483648 };
            let full: i64 = if w == 1 { 256 } else if w == 2 { 65536 } else { 4294967296 };
            let v: i64 = if raw >= half { raw as i64 - full } else { raw as i64 };
            let mut out: Vec<u8> = Vec::new();
            push_signed(&mut out, v);
            assert(out@ =~= signed_decimal(le_signed(s@.subrange(q as int, q + w))));
            Ok((out, q + w))
        },
    }
}

/// An image being read: its bytes, the position of the next entry, and what
/// its header held.
pub struct Rdb {
    data: Vec<u8>,
    pos: usize,
    finished: bool,
    version: u16,
    metadata: Vec<(Vec<u8>, Vec<u8>)>,
    db0_offset: usize,
}

pub open spec fn pairs_view(v: Seq<(Vec<u8>, Vec<u8>)>) -> Seq<(Seq<u8>, Seq<u8>)> {
    v.map_values(|p: (Vec<u8>, Vec<u8>)| (p.0@, p.1@))
}

impl Rdb {
    pub closed spec fn bytes(&self) -> Seq<u8> {
        self.data@
    }

    /// Where the next entry starts.
    pub closed spec fn cursor(&self) -> int {
        self.pos as int
    }

    /// The end of the database has been read.
    pub closed spec fn done(&self) -> bool {
        self.finished
    }

    pub closed spec fn spec_version(&self) -> nat {
        self.version as nat
    }

    pub closed spec fn spec_metadata(&self) -> Seq<(Seq<u8>, Seq<u8>)> {
        pairs_view(self.metadata@)
    }

    pub closed spec fn spec_db0_offset(&self) -> int {
        self.db0_offset as int
    }

    pub closed spec fn wf(&self) -> bool {
        self.pos <= self.data@.len()
    }

    /// Reads the header of an image: the magic word, the version, the
    /// auxiliary fields, and the start of database 0.
    pub fn open(data: Vec<u8>) -> (r: Result<Self, RdbError>)
        ensures
            match header(data@) {
                Err(e) => r == Err::<Self, RdbError>(e),
                Ok((v, meta, q)) => r matches Ok(rdb) && rdb.wf() && rdb.bytes() == data@ && rdb.cursor() == q
                    && !rdb.done() && rdb.spec_version() == v && rdb.spec_metadata() == meta
                    && rdb.spec_db0_offset() == q,
            },
    {
        proof {
            reveal_strlit("REDIS");
        }
        let n = data.len();
        if n < 9 {
            return Err(RdbError::Truncated);
        }
        let magic = data.as_slice().split_at(5).0;
        if !bytes_eq(magic, lit("REDIS").as_slice()) {
            return Err(RdbError::NotRdb);
        }
        let digits = data.as_slice().split_at(9).0.split_at(5).1;
        assert(digits@ =~= data@.subrange(5, 9));
        let version = match parse_u64(digits) {
            None => {
                return Err(RdbError::BadVersion);
            },
            Some(v) => {
                if v > 65535 {
                    return Err(RdbError::BadVersion);
                }
                v as u16
            },
        };
        let mut metadata: Vec<(Vec<u8>, Vec<u8>)> = Vec::new();
        let mut p: usize = 9;
        assert(pairs_view(metadata@) =~= Seq::<(Seq<u8>, Seq<u8>)>::empty());
        loop
            invariant
                p <= data@.len(),
                n == data@.len(),
                header(data@) == match preamble_at(data@, p as int, pairs_view(metadata@)) {
                    Err(e) => Err(e),
                    Ok((meta, q)) => Ok((version as nat, meta, q)),
                },
            decreases data@.len() - p,
        {
            if p >= n {
                return Err(RdbError::Truncated);
            }
            let b = data[p];
            if b == 0xfa {
                let (k, q) = match read_string(data.as_slice(), p + 1) {
                    Err(e) => {
                        return Err(e);
                    },
                    Ok(x) => x,
                };
                let (v, q2) = match read_string(data.as_slice(), q) {
                    Err(e) => {
                        return Err(e);
                    },
                    Ok(x) => x,
                };
                if q2 <= p {
                    return Err(RdbError::Truncated);
                }
                let ghost before = metadata@;
                metadata.push((k, v));
                assert(pairs_view(metadata@) =~= pairs_view(before).push((k@, v@)));
                p = q2;
            } else if b == 0xfe {
                if p + 1 >= n {
                    return Err(RdbError::Truncated);
                }
                if data[p + 1] != 0 {
                    return Err(RdbError::MissingDb0);
                }
                if p + 2 >= n {
                    return Err(RdbError::Truncated);
                }
                if data[p + 2] != 0xfb {
                    return Err(RdbError::MissingHashSize);
                }
                let q = match read_length_encoded(data.as_slice(), p + 3) {
                    None => {
                        return Err(RdbError::Truncated);
                    },
                    Some((_, q)) => q,
                };
                let q2 = match read_length_encoded(data.as_slice(), q) {
                    None => {
                        return Err(RdbError::Truncated);
                    },
                    Some((_, q2)) => q2,
                };
                return Ok(Rdb { data, pos: q2, finished: false, version, metadata, db0_offset: q2 });
            } else {
                return Err(RdbError::UnknownByte(b, p + 1));
            }
        }
    }

    pub fn version(&self) -> (r: u16)
        ensures
            r == self.spec_version(),
    {
        self.version
    }

    pub fn metadata(&self) -> (r: &Vec<(Vec<u8>, Vec<u8>)>)
        ensures
            pairs_view(r@) == self.spec_metadata(),
    {
        &self.metadata
    }

    pub fn db0_offset(&self) -> (r: usize)
        ensures
            r == self.spec_db0_offset(),
    {
        self.db0_offset
    }

    /// Reads the next entry and moves past it; at the end of the database,
    /// and on every later call, there is none.
    pub fn read_next_entry(&mut self) -> (r: Result<Option<RedisFileEntry>, RdbError>)
        requires
            old(self).wf(),
        ensures
            final(self).wf(),
            final(self).bytes() == old(self).bytes(),
            final(self).spec_version() == old(self).spec_version(),
            final(self).spec_metadata() == old(self).spec_metadata(),
            old(self).done() ==> (r matches Ok(None) && final(self).done()),
            !old(self).done() ==> match entry_at(old(self).bytes(), old(self).cursor()) {
                Err(e) => r == Err::<Option<RedisFileEntry>, RdbError>(e) && final(self).cursor() == old(self).cursor()
                    && !final(self).done(),
                Ok(None) => r matches Ok(None) && final(self).done(),
                Ok(Some((k, v, ex, q))) => r matches Ok(Some(e)) && entry_view(e) == (k, v, ex)
                    && e.value@ == Resp::Bulk(v)
                    && final(self).cursor() == q && !final(self).done(),
            },
    {
        if self.finished {
            return Ok(None);
        }
        match entry_from(self.data.as_slice(), self.pos) {
            Err(e) => Err(e),
            Ok(None) => {
                self.finished = true;
                Ok(None)
            },
            Ok(Some((e, q))) => {
                self.pos = q;
                Ok(Some(e))
            },
        }
    }
}

/// An entry as key, value and deadline.
pub open spec fn entry_view(e: RedisFileEntry) -> (Seq<u8>, Seq<u8>, Option<int>) {
    (e.key@, match e.value@ {
        Resp::Bulk(b) => b,
        _ => seq![],
    }, match e.expires {
        Some(t) => Some(t as int),
        None => None,
    })
}

fn entry_from(s: &[u8], p: usize) -> (r: Result<Option<(RedisFileEntry, usize)>, RdbError>)
    ensures
        match entry_at(s@, p as int) {
            Err(e) => r == Err::<Option<(RedisFileEntry, usize)>, RdbError>(e),
            Ok(None) => r matches Ok(None),
            Ok(Some((k, v, ex, q))) => r matches Ok(Some((e, q2))) && entry_view(e) == (k, v, ex)
                && e.value@ == Resp::Bulk(v) && q2 == q && q <= s@.len(),
        },
    decreases s@.len() - p,
{
    let n = s.len();
    if p >= n {
        return Err(RdbError::Truncated);
    }
    let b = s[p];
    if b == 0 {
        let (k, q) = match read_string(s, p + 1) {
            Err(e) => {
                return Err(e);
            },
            Ok(x) => x,
        };
        let (v, q2) = match read_string(s, q) {
            Err(e) => {
                return Err(e);
            },
            Ok(x) => x,
        };
        Ok(Some((RedisFileEntry { key: k, value: RedisType::String(v), expires: None }, q2)))
    } else if b <= 14 {
        match read_string(s, p + 1) {
            Err(e) => Err(e),
            Ok(_) => Err(RdbError::UnsupportedType(b)),
        }
    } else if b == 0xfc || b == 0xfd {
        let w: usize = if b == 0xfc { 8 } else { 4 };
        if w > n - p - 1 {
            return Err(RdbError::Truncated);
        }
        let raw = read_le(s, p + 1, w);
        proof {
            lemma_pow256_values();
        }
        let ms: u64 = if b == 0xfc { raw } else { raw * 1000 };
        match entry_from(s, p + 1 + w) {
            Err(e) => Err(e),
            Ok(None) => Ok(None),
            Ok(Some((e, q))) => Ok(Some((RedisFileEntry { key: e.key, value: e.value, expires: Some(ms) }, q))),
        }
    } else if b == 0xfe || b == 0xff {
        Ok(None)
    } else {
        Err(RdbError::UnrecognizedCode(b))
    }
}

} // verus!
