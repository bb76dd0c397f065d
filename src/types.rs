//! RESP values and their wire encoding.
use vstd::prelude::*;
use crate::text::{decimal, signed_decimal, push_decimal, push_signed, push_all, copy_bytes};

verus! {

/// The mathematical model of a RESP value.
pub enum Resp {
    Bulk(Seq<u8>),
    Int(int),
    Timestamp(int),
    Array(Seq<Resp>),
}

/// A RESP value: a bulk byte string, a signed integer, a millisecond timestamp,
/// or an array of values.
pub enum RedisType {
    String(Vec<u8>),
    Int(i64),
    Timestamp(u128),
    Array(Vec<RedisType>),
}

/// The models of a sequence of values.
pub open spec fn views(xs: Seq<RedisType>) -> Seq<Resp> {
    Seq::new(xs.len(), |i: int| if 0 <= i < xs.len() { xs[i]@ } else { Resp::Int(0) })
}

impl View for RedisType {
    type V = Resp;

    open spec fn view(&self) -> Resp
        decreases self,
    {
        match self {
            RedisType::String(s) => Resp::Bulk(s@),
            RedisType::Int(n) => Resp::Int(*n as int),
            RedisType::Timestamp(t) => Resp::Timestamp(*t as int),
            RedisType::Array(xs) => Resp::Array(
                Seq::new(xs@.len(), |i: int| if 0 <= i < xs@.len() { xs@[i]@ } else { Resp::Int(0) }),
            ),
        }
    }
}

pub open spec fn crlf() -> Seq<u8> {
    seq![13u8, 10u8]
}

/// `$<len>\r\n<bytes>\r\n`
pub open spec fn bulk_frame(s: Seq<u8>) -> Seq<u8> {
    seq![36u8] + decimal(s.len()) + crlf() + s + crlf()
}

/// `:<decimal>\r\n`
pub open spec fn int_frame(n: int) -> Seq<u8> {
    seq![58u8] + signed_decimal(n) + crlf()
}

/// `*<len>\r\n`
pub open spec fn array_header(n: nat) -> Seq<u8> {
    seq![42u8] + decimal(n) + crlf()
}

/// The RESP2 encoding of a value.
pub open spec fn encode(v: Resp) -> Seq<u8>
    decreases v,
{
    match v {
        Resp::Bulk(s) => bulk_frame(s),
        Resp::Int(n) => int_frame(n),
        Resp::Timestamp(n) => int_frame(n),
        Resp::Array(xs) => array_header(xs.len()) + encode_all(xs),
    }
}

/// The encodings of a sequence of values, one after the other.
pub open spec fn encode_all(xs: Seq<Resp>) -> Seq<u8>
    decreases xs,
{
    if xs.len() == 0 {
        seq![]
    } else {
        encode(xs[0]) + encode_all(xs.subrange(1, xs.len() as int))
    }
}

/// The number of nodes of a value.
pub open spec fn size(v: Resp) -> nat
    decreases v,
{
    match v {
        Resp::Array(xs) => 1 + size_all(xs),
        _ => 1,
    }
}

pub open spec fn size_all(xs: Seq<Resp>) -> nat
    decreases xs,
{
    if xs.len() == 0 {
        0
    } else {
        size(xs[0]) + size_all(xs.subrange(1, xs.len() as int))
    }
}

/// What the frames of an encoder stack still have to write, top frame first.
pub open spec fn pending<'a>(st: Seq<(&'a Vec<RedisType>, usize)>) -> Seq<u8>
    decreases st.len(),
{
    if st.len() == 0 {
        seq![]
    } else {
        let top = st.last();
        encode_all(views(top.0@).skip(top.1 as int)) + pending(st.drop_last())
    }
}

pub open spec fn pending_size<'a>(st: Seq<(&'a Vec<RedisType>, usize)>) -> nat
    decreases st.len(),
{
    if st.len() == 0 {
        0
    } else {
        let top = st.last();
        size_all(views(top.0@).skip(top.1 as int)) + pending_size(st.drop_last())
    }
}

proof fn lemma_unfold_rest(xs: Seq<Resp>, i: int)
    requires
        0 <= i < xs.len(),
    ensures
        encode_all(xs.skip(i)) == encode(xs[i]) + encode_all(xs.skip(i + 1)),
        size_all(xs.skip(i)) == size(xs[i]) + size_all(xs.skip(i + 1)),
{
    let r = xs.skip(i);
    assert(r.subrange(1, r.len() as int) =~= xs.skip(i + 1));
    assert(r[0] == xs[i]);
}

proof fn lemma_pending_push<'a>(st: Seq<(&'a Vec<RedisType>, usize)>, f: (&'a Vec<RedisType>, usize))
    ensures
        pending(st.push(f)) == encode_all(views(f.0@).skip(f.1 as int)) + pending(st),
        pending_size(st.push(f)) == size_all(views(f.0@).skip(f.1 as int)) + pending_size(st),
{
    assert(st.push(f).drop_last() =~= st);
}

proof fn lemma_array_view(xs: &Vec<RedisType>)
    ensures
        RedisType::Array(*xs)@ == Resp::Array(views(xs@)),
{
    assert(RedisType::Array(*xs)@->Array_0 =~= views(xs@));
}

impl RedisType {
    /// A bulk string value holding a copy of `s`.
    pub fn bulk(s: &[u8]) -> (r: RedisType)
        ensures
            r@ == Resp::Bulk(s@),
    {
        RedisType::String(copy_bytes(s))
    }

    /// A deep copy of the value.
    pub fn duplicate(&self) -> (r: RedisType)
        ensures
            r@ == self@,
        decreases self,
    {
        match self {
            RedisType::String(s) => RedisType::String(copy_bytes(s.as_slice())),
            RedisType::Int(n) => RedisType::Int(*n),
            RedisType::Timestamp(t) => RedisType::Timestamp(*t),
            RedisType::Array(xs) => {
                let mut ys: Vec<RedisType> = Vec::new();
                let mut i: usize = 0;
                while i < xs.len()
                    invariant
                        *self == RedisType::Array(*xs),
                        i <= xs@.len(),
                        ys@.len() == i,
                        forall|j: int| 0 <= j < i ==> ys@[j]@ == xs@[j]@,
                    decreases xs@.len() - i,
                {
                    proof {
                        assert(decreases_to!(*self => self->Array_0));
                        assert(decreases_to!(self->Array_0 => (self->Array_0)[i as int]));
                    }
                    let c = xs[i].duplicate();
                    ys.push(c);
                    i = i + 1;
                }
                let r = RedisType::Array(ys);
                assert(r@->Array_0 =~= self@->Array_0);
                r
            },
        }
    }

    /// Appends the encoding of a value that is not an array.
    fn push_scalar(&self, out: &mut Vec<u8>)
        requires
            !(self is Array),
        ensures
            final(out)@ == old(out)@ + encode(self@),
    {
        match self {
            RedisType::String(s) => {
                out.push(36);
                push_decimal(out, s.len() as u128);
                out.push(13);
                out.push(10);
                push_all(out, s.as_slice());
                out.push(13);
                out.push(10);
                assert(final(out)@ =~= old(out)@ + encode(self@));
            },
            RedisType::Int(n) => {
                out.push(58);
                push_signed(out, *n);
                out.push(13);
                out.push(10);
                assert(final(out)@ =~= old(out)@ + encode(self@));
            },
            RedisType::Timestamp(t) => {
                out.push(58);
                push_decimal(out, *t);
                out.push(13);
                out.push(10);
                assert(final(out)@ =~= old(out)@ + encode(self@));
            },
            RedisType::Array(_) => {},
        }
    }

    /// Appends the RESP2 encoding of the value to `out`.
    pub fn write(&self, out: &mut Vec<u8>)
        ensures
            final(out)@ == old(out)@ + encode(self@),
    {
        let bytes = self.to_vec();
        push_all(out, bytes.as_slice());
    }

    /// The RESP2 encoding of the value. Nested arrays are walked with an
    /// explicit stack, so the depth of nesting is bounded by memory only.
    pub fn to_vec(&self) -> (r: Vec<u8>)
        ensures
            r@ == encode(self@),
    {
        let mut out: Vec<u8> = Vec::new();
        match self {
            RedisType::Array(top) => {
                out.push(42);
                push_decimal(&mut out, top.len() as u128);
                out.push(13);
                out.push(10);
                let mut stack: Vec<(&Vec<RedisType>, usize)> = Vec::new();
                stack.push((top, 0));
                proof {
                    lemma_array_view(top);
                    assert(views(top@).skip(0) =~= views(top@));
                    assert(stack@ =~= Seq::<(&Vec<RedisType>, usize)>::empty().push((top, 0usize)));
                    lemma_pending_push(Seq::<(&Vec<RedisType>, usize)>::empty(), (top, 0usize));
                    assert(pending(stack@) =~= encode_all(views(top@)));
                    assert(out@ =~= array_header(top@.len()));
                    assert(out@ + pending(stack@) =~= encode(self@));
                }
                while stack.len() > 0
                    invariant
                        out@ + pending(stack@) == encode(self@),
                        forall|k: int| 0 <= k < stack@.len() ==> #[trigger] stack@[k].1 <= stack@[k].0@.len(),
                    decreases 2 * pending_size(stack@) + stack@.len(),
                {
                    let last = stack.len() - 1;
                    let (frame, idx) = stack[last];
                    let ghost old_stack = stack@;
                    let ghost rest = old_stack.drop_last();
                    proof {
                        assert(old_stack =~= rest.push((frame, idx)));
                        lemma_pending_push(rest, (frame, idx));
                    }
                    if idx < frame.len() {
                        let item = &frame[idx];
                        proof {
                            lemma_unfold_rest(views(frame@), idx as int);
                            assert(views(frame@).skip(idx + 1) =~= views(frame@).skip(idx as int).subrange(1, views(frame@).skip(idx as int).len() as int));
                        }
                        stack.set(last, (frame, idx + 1));
                        proof {
                            assert(stack@ =~= rest.push((frame, (idx + 1) as usize)));
                            lemma_pending_push(rest, (frame, (idx + 1) as usize));
                            assert(views(frame@)[idx as int] == item@);
                        }
                        match item {
                            RedisType::Array(inner) => {
                                out.push(42);
                                push_decimal(&mut out, inner.len() as u128);
                                out.push(13);
                                out.push(10);
                                stack.push((inner, 0));
                                proof {
                                    lemma_array_view(inner);
                                    assert(views(inner@).skip(0) =~= views(inner@));
                                    let mid = rest.push((frame, (idx + 1) as usize));
                                    assert(stack@ =~= mid.push((inner, 0usize)));
                                    lemma_pending_push(mid, (inner, 0usize));
                                    assert(out@ + pending(stack@) =~= encode(self@));
                                }
                            },
                            _ => {
                                item.push_scalar(&mut out);
                                assert(out@ + pending(stack@) =~= encode(self@));
                            },
                        }
                    } else {
                        stack.pop();
                        proof {
                            assert(views(frame@).skip(idx as int) =~= Seq::<Resp>::empty());
                            assert(stack@ =~= rest);
                            assert(out@ + pending(stack@) =~= encode(self@));
                        }
                    }
                }
                out
            },
            _ => {
                self.push_scalar(&mut out);
                assert(out@ =~= encode(self@));
                out
            },
        }
    }
}

} // verus!
