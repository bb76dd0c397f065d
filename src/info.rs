//! The text of the INFO command.
use vstd::prelude::*;
use crate::config::Configuration;
use crate::replica::replid;
use crate::text::{ascii, bytes_eq, decimal, lit, push_all, push_decimal, push_str};
use crate::types::crlf;

verus! {

broadcast use vstd::string::group_string_axioms;

/// The `replication` section, its lines joined with CRLF.
pub open spec fn replication_text(is_replica: bool, offset: nat) -> Seq<u8> {
    ascii("# Replication"@) + crlf()
        + (if is_replica { ascii("role:slave"@) } else { ascii("role:master"@) }) + crlf()
        + ascii("connected_slaves:0"@) + crlf()
        + ascii("master_replid:"@) + replid() + crlf()
        + ascii("master_repl_offset:"@) + decimal(offset)
}

/// The text of a section; empty for a section that is not known.
pub open spec fn section_text(c: Configuration, section: Seq<u8>) -> Seq<u8> {
    if section == ascii("replication"@) {
        replication_text(c.replica_spec(), c.replica_info_spec().spec_offset())
    } else {
        seq![]
    }
}

/// Every known section.
pub open spec fn all_info_text(c: Configuration) -> Seq<u8> {
    section_text(c, ascii("replication"@))
}

/// The texts of the named sections, dropping those that are empty.
pub open spec fn rendered(c: Configuration, sections: Seq<Seq<u8>>) -> Seq<Seq<u8>>
    decreases sections.len(),
{
    if sections.len() == 0 {
        seq![]
    } else {
        let t = section_text(c, sections.last());
        rendered(c, sections.drop_last()) + if t.len() > 0 {
            seq![t]
        } else {
            seq![]
        }
    }
}

/// The text of one section of INFO.
pub fn info_on(config: &Configuration, section: &[u8]) -> (r: Vec<u8>)
    requires
        config.wf(),
    ensures
        r@ == section_text(*config, section@),
{
    proof {
        reveal_strlit("replication");
        reveal_strlit("# Replication");
        reveal_strlit("role:slave");
        reveal_strlit("role:master");
        reveal_strlit("connected_slaves:0");
        reveal_strlit("master_replid:");
        reveal_strlit("master_repl_offset:");
        reveal_strlit("# Replication\r\n");
        reveal_strlit("role:slave\r\n");
        reveal_strlit("role:master\r\n");
        reveal_strlit("connected_slaves:0\r\n");
    }
    if !bytes_eq(section, lit("replication").as_slice()) {
        return Vec::new();
    }
    let is_replica = config.is_replica();
    let info = config.replica_info();
    let mut r: Vec<u8> = Vec::new();
    push_str(&mut r, "# Replication\r\n");
    if is_replica {
        push_str(&mut r, "role:slave\r\n");
    } else {
        push_str(&mut r, "role:master\r\n");
    }
    push_str(&mut r, "connected_slaves:0\r\n");
    push_str(&mut r, "master_replid:");
    let id = info.digest_string();
    push_all(&mut r, id.as_slice());
    r.push(13);
    r.push(10);
    push_str(&mut r, "master_repl_offset:");
    push_decimal(&mut r, info.offset() as u128);
    assert(r@ =~= section_text(*config, section@));
    r
}

/// The text of every known section, joined with CRLF.
pub fn all_info(config: &Configuration) -> (r: Vec<u8>)
    requires
        config.wf(),
    ensures
        r@ == all_info_text(*config),
{
    proof {
        reveal_strlit("replication");
    }
    info_on(config, lit("replication").as_slice())
}

/// The texts of the named sections, in order, without the empty ones.
pub fn render_sections(config: &Configuration, sections: &Vec<Vec<u8>>) -> (r: Vec<Vec<u8>>)
    requires
        config.wf(),
    ensures
        crate::io::byte_views(r@) == rendered(*config, crate::io::byte_views(sections@)),
{
    let mut r: Vec<Vec<u8>> = Vec::new();
    let mut i: usize = 0;
    while i < sections.len()
        invariant
            config.wf(),
            i <= sections@.len(),
            crate::io::byte_views(r@) == rendered(*config, crate::io::byte_views(sections@.take(i as int))),
        decreases sections@.len() - i,
    {
        assert(crate::io::byte_views(sections@.take(i + 1)).drop_last() =~= crate::io::byte_views(sections@.take(i as int)));
        let t = info_on(config, sections[i].as_slice());
        if t.len() > 0 {
            r.push(t);
        }
        i = i + 1;
        assert(crate::io::byte_views(r@) =~= rendered(*config, crate::io::byte_views(sections@.take(i as int))));
    }
    assert(sections@.take(i as int) =~= sections@);
    r
}

} // verus!
