//! The reading of command-line options into configuration pairs.
use vstd::prelude::*;
use crate::io::byte_views;
use crate::text::{ascii, bytes_eq, copy_bytes, lit, push_all, split_words, words};

verus! {

broadcast use vstd::string::group_string_axioms;

#[derive(PartialEq, Eq, Debug)]
pub enum ArgError {
    /// `--replicaof` is the last argument.
    MissingReplicaof,
    /// `--replicaof` is not followed by `"<host> <port>"`.
    BadReplicaof,
    /// An option is the last argument.
    MissingValue(Vec<u8>),
}

/// The model of an argument error.
pub enum ArgFailure {
    MissingReplicaof,
    BadReplicaof,
    MissingValue(Seq<u8>),
}

pub open spec fn is_option(a: Seq<u8>) -> bool {
    a.len() >= 2 && a[0] == 45 && a[1] == 45
}

/// The pairs read from `a[i..]`, after the pairs `acc`; words that are not
/// options are skipped.
pub open spec fn pairs_from(a: Seq<Seq<u8>>, i: int, acc: Seq<(Seq<u8>, Seq<u8>)>) -> Result<Seq<(Seq<u8>, Seq<u8>)>, ArgFailure>
    decreases a.len() - i,
{
    if i < 0 || i >= a.len() {
        Ok(acc)
    } else if !is_option(a[i]) {
        pairs_from(a, i + 1, acc)
    } else if a[i] == ascii("--replicaof"@) {
        if i + 1 >= a.len() {
            Err(ArgFailure::MissingReplicaof)
        } else {
            let w = words(a[i + 1]);
            if w.len() != 2 {
                Err(ArgFailure::BadReplicaof)
            } else {
                pairs_from(a, i + 2, acc.push((ascii("replicaof"@), w[0] + seq![58u8] + w[1])))
            }
        }
    } else if i + 1 >= a.len() {
        Err(ArgFailure::MissingValue(a[i]))
    } else {
        pairs_from(a, i + 2, acc.push((a[i].skip(2), a[i + 1])))
    }
}

pub open spec fn pair_views(v: Seq<(Vec<u8>, Vec<u8>)>) -> Seq<(Seq<u8>, Seq<u8>)> {
    v.map_values(|p: (Vec<u8>, Vec<u8>)| (p.0@, p.1@))
}

/// Reads the options of a command line (`args[0]` is the program) into
/// configuration pairs: `--name value` gives `(name, value)`, and
/// `--replicaof "<host> <port>"` gives `(replicaof, <host>:<port>)`.
pub fn parse_arguments(args: &Vec<Vec<u8>>) -> (r: Result<Vec<(Vec<u8>, Vec<u8>)>, ArgError>)
    ensures
        match pairs_from(byte_views(args@), 1, seq![]) {
            Ok(ps) => r matches Ok(v) && pair_views(v@) == ps,
            Err(ArgFailure::MissingReplicaof) => r == Err::<Vec<(Vec<u8>, Vec<u8>)>, ArgError>(ArgError::MissingReplicaof),
            Err(ArgFailure::BadReplicaof) => r == Err::<Vec<(Vec<u8>, Vec<u8>)>, ArgError>(ArgError::BadReplicaof),
            Err(ArgFailure::MissingValue(o)) => r matches Err(ArgError::MissingValue(b)) && b@ == o,
        },
{
    proof {
        reveal_strlit("--replicaof");
        reveal_strlit("replicaof");
    }
    let ghost a = byte_views(args@);
    let mut pairs: Vec<(Vec<u8>, Vec<u8>)> = Vec::new();
    let mut i: usize = 1;
    assert(pair_views(pairs@) =~= Seq::<(Seq<u8>, Seq<u8>)>::empty());
    while i < args.len()
        invariant
            1 <= i,
            a == byte_views(args@),
            pairs_from(a, 1, seq![]) == pairs_from(a, i as int, pair_views(pairs@)),
        decreases args@.len() - i,
    {
        proof {
            reveal_strlit("--replicaof");
            reveal_strlit("replicaof");
        }
        let arg = &args[i];
        assert(a[i as int] == arg@);
        if !(arg.len() >= 2 && arg[0] == 45 && arg[1] == 45) {
            i = i + 1;
            continue;
        }
        let ghost before = pairs@;
        if bytes_eq(arg.as_slice(), lit("--replicaof").as_slice()) {
            if i + 1 >= args.len() {
                return Err(ArgError::MissingReplicaof);
            }
            assert(a[i + 1] == args@[i + 1]@);
            let w = split_words(args[i + 1].as_slice());
            assert(byte_views(w@) == w@.map_values(|x: Vec<u8>| x@));
            if w.len() != 2 {
                return Err(ArgError::BadReplicaof);
            }
            let mut value = copy_bytes(w[0].as_slice());
            value.push(58);
            push_all(&mut value, w[1].as_slice());
            assert(byte_views(w@)[0] == w@[0]@);
            assert(byte_views(w@)[1] == w@[1]@);
            assert(value@ =~= w@[0]@ + seq![58u8] + w@[1]@);
            pairs.push((lit("replicaof"), value));
            i = i + 2;
        } else {
            if i + 1 >= args.len() {
                return Err(ArgError::MissingValue(copy_bytes(arg.as_slice())));
            }
            assert(a[i + 1] == args@[i + 1]@);
            let name = copy_bytes(arg.as_slice().split_at(2).1);
            assert(name@ =~= arg@.skip(2));
            pairs.push((name, copy_bytes(args[i + 1].as_slice())));
            i = i + 2;
        }
        assert(pair_views(pairs@) =~= pair_views(before).push(pair_views(pairs@).last()));
    }
    Ok(pairs)
}

} // verus!
