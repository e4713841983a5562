//! The name and version exchange that opens a sub-stream: the initiator
//! names a protocol and the versions it supports, and the responder
//! answers with the highest version that both support, or refuses.

use vstd::prelude::*;
use vstd::utf8::encode_utf8;
use crate::secio::support::{
    lemma_lex_le_transitive, lemma_lex_order_equal, lemma_lex_order_reverse, lex_le, HashOrder,
};
use crate::service::config::{has_name, ProtocolRegistry};
use crate::text::same_text;
use crate::ProtocolId;

verus! {

/// What the initiator sends: the protocol it wants and the versions it
/// supports.
#[derive(Debug, PartialEq, Eq)]
pub struct ProtocolInfo {
    pub name: String,
    pub support_versions: Vec<String>,
}

/// The texts of a vector of strings.
pub open spec fn texts(items: Seq<String>) -> Seq<Seq<char>> {
    items.map_values(|s: String| s@)
}

/// Whether both sides support the version `v`.
pub open spec fn is_common(v: Seq<char>, local: Seq<String>, remote: Seq<String>) -> bool {
    texts(local).contains(v) && texts(remote).contains(v)
}

/// Whether the version `a` is at most the version `b`: versions are
/// ordered as their UTF-8 forms are, byte by byte.
pub open spec fn version_le(a: Seq<char>, b: Seq<char>) -> bool {
    lex_le(encode_utf8(a), encode_utf8(b))
}

fn supports(versions: &Vec<String>, v: &str) -> (found: bool)
    ensures
        found == texts(versions@).contains(v@),
{
    let mut i: usize = 0;
    while i < versions.len()
        invariant
            i <= versions.len(),
            forall|j: int| 0 <= j < i ==> texts(versions@)[j] != v@,
        decreases versions.len() - i,
    {
        if same_text(versions[i].as_str(), v) {
            assert(texts(versions@)[i as int] == v@);
            return true;
        }
        i += 1;
    }
    false
}

/// The highest version that both sides support, if they have one in
/// common.
pub fn select_version(local: &Vec<String>, remote: &Vec<String>) -> (r: Option<String>)
    ensures
        match r {
            Some(v) => is_common(v@, local@, remote@) && forall|w: Seq<char>|
                #[trigger] is_common(w, local@, remote@) ==> version_le(w, v@),
            None => forall|w: Seq<char>| !#[trigger] is_common(w, local@, remote@),
        },
{
    let mut best: Option<usize> = None;
    let mut i: usize = 0;
    while i < local.len()
        invariant
            i <= local.len(),
            match best {
                Some(b) => b < i && is_common(local@[b as int]@, local@, remote@) && forall|k: int|
                    0 <= k < i && is_common(#[trigger] local@[k]@, local@, remote@) ==> version_le(
                        local@[k]@,
                        local@[b as int]@,
                    ),
                None => forall|k: int|
                    0 <= k < i ==> !is_common(#[trigger] local@[k]@, local@, remote@),
            },
        decreases local.len() - i,
    {
        let candidate = &local[i];
        assert(texts(local@)[i as int] == candidate@);
        if supports(remote, candidate.as_str()) {
            match best {
                None => {
                    proof {
                        lemma_lex_order_equal(
                            encode_utf8(candidate@),
                            encode_utf8(candidate@),
                        );
                    }
                    best = Some(i);
                },
                Some(b) => {
                    let order = HashOrder::of(
                        local[b].as_str().as_bytes(),
                        candidate.as_str().as_bytes(),
                    );
                    if order == HashOrder::Less {
                        proof {
                            lemma_lex_order_equal(
                                encode_utf8(candidate@),
                                encode_utf8(candidate@),
                            );
                            assert forall|k: int|
                                0 <= k < i + 1 && is_common(
                                    #[trigger] local@[k]@,
                                    local@,
                                    remote@,
                                ) implies version_le(local@[k]@, candidate@) by {
                                if k < i {
                                    lemma_lex_le_transitive(
                                        encode_utf8(local@[k]@),
                                        encode_utf8(local@[b as int]@),
                                        encode_utf8(candidate@),
                                    );
                                }
                            }
                        }
                        best = Some(i);
                    } else {
                        proof {
                            lemma_lex_order_reverse(
                                encode_utf8(local@[b as int]@),
                                encode_utf8(candidate@),
                            );
                        }
                    }
                },
            }
        }
        i += 1;
    }
    match best {
        None => {
            assert forall|w: Seq<char>| !#[trigger] is_common(w, local@, remote@) by {
                if is_common(w, local@, remote@) {
                    let k = choose|k: int| 0 <= k < texts(local@).len() && texts(local@)[k] == w;
                    assert(local@[k]@ == w);
                }
            }
            None
        },
        Some(b) => {
            let v = local[b].clone();
            assert forall|w: Seq<char>| #[trigger]
                is_common(w, local@, remote@) implies version_le(w, v@) by {
                let k = choose|k: int| 0 <= k < texts(local@).len() && texts(local@)[k] == w;
                assert(local@[k]@ == w);
            }
            Some(v)
        },
    }
}

/// What the responder answers.
#[derive(Debug, PartialEq, Eq)]
pub enum SelectReply {
    /// The protocol opens with this version.
    Selected { proto_id: ProtocolId, version: String },
    /// The responder has no protocol of that name.
    UnknownProtocol,
    /// The responder supports none of the initiator's versions.
    NoCommonVersion,
}

/// The responder's answer to what an initiator sent.
pub fn respond(registry: &ProtocolRegistry, wanted: &ProtocolInfo) -> (reply: SelectReply)
    requires
        registry.wf(),
    ensures
        match reply {
            SelectReply::Selected { proto_id, version } => exists|i: int|
                0 <= i < registry.metas@.len() && (#[trigger] registry.metas@[i]).name@
                    == wanted.name@ && registry.metas@[i].id == proto_id && is_common(
                    version@,
                    registry.metas@[i].support_versions@,
                    wanted.support_versions@,
                ) && forall|w: Seq<char>| #[trigger]
                    is_common(w, registry.metas@[i].support_versions@, wanted.support_versions@)
                        ==> version_le(w, version@),
            SelectReply::UnknownProtocol => !has_name(registry.metas@, wanted.name@),
            SelectReply::NoCommonVersion => exists|i: int|
                0 <= i < registry.metas@.len() && (#[trigger] registry.metas@[i]).name@
                    == wanted.name@ && forall|w: Seq<char>|
                    !#[trigger] is_common(
                        w,
                        registry.metas@[i].support_versions@,
                        wanted.support_versions@,
                    ),
        },
{
    match registry.find(wanted.name.as_str()) {
        None => SelectReply::UnknownProtocol,
        Some(i) => {
            let meta = &registry.metas[i];
            match select_version(&meta.support_versions, &wanted.support_versions) {
                Some(version) => SelectReply::Selected { proto_id: meta.id, version },
                None => SelectReply::NoCommonVersion,
            }
        },
    }
}

} // verus!
