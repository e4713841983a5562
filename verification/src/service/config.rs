//! Protocols as they are registered with a service, and the targets of a
//! message.

use vstd::prelude::*;
use crate::text::same_text;
use crate::{ProtocolId, SessionId};

verus! {

/// What is registered for one protocol. It does not change afterwards.
#[derive(Debug, PartialEq, Eq)]
pub struct ProtocolMeta {
    pub id: ProtocolId,
    pub name: String,
    pub support_versions: Vec<String>,
    /// How long a session may stay without a protocol, in milliseconds.
    pub session_timeout: u64,
    /// Largest frame that the protocol accepts.
    pub max_frame_len: usize,
}

/// Why a protocol was not registered.
#[derive(Debug, Clone, Copy, PartialEq, Eq, Structural)]
pub enum RegistryError {
    /// A protocol with this id is registered already.
    DuplicateId,
    /// A protocol with this name is registered already.
    DuplicateName,
}

/// The protocols of a service: ids and names are unique.
#[derive(Debug, PartialEq, Eq)]
pub struct ProtocolRegistry {
    pub metas: Vec<ProtocolMeta>,
}

/// Whether some protocol of `metas` has the id `id`.
pub open spec fn has_id(metas: Seq<ProtocolMeta>, id: ProtocolId) -> bool {
    exists|i: int| 0 <= i < metas.len() && (#[trigger] metas[i]).id == id
}

/// Whether some protocol of `metas` has the name `name`.
pub open spec fn has_name(metas: Seq<ProtocolMeta>, name: Seq<char>) -> bool {
    exists|i: int| 0 <= i < metas.len() && (#[trigger] metas[i]).name@ == name
}

impl ProtocolRegistry {
    /// No two protocols share an id or a name.
    pub open spec fn wf(self) -> bool {
        forall|i: int, j: int|
            0 <= i < j < self.metas@.len() ==> (#[trigger] self.metas@[i]).id != (
            #[trigger] self.metas@[j]).id && self.metas@[i].name@ != self.metas@[j].name@
    }

    /// The id registered under `name`, if any.
    pub open spec fn spec_resolve(self, name: Seq<char>) -> Option<ProtocolId> {
        if has_name(self.metas@, name) {
            Some(
                self.metas@[choose|i: int|
                    0 <= i < self.metas@.len() && (#[trigger] self.metas@[i]).name@ == name].id,
            )
        } else {
            None
        }
    }

    /// A registry without protocols.
    pub fn new() -> (r: ProtocolRegistry)
        ensures
            r.wf(),
            r.metas@.len() == 0,
    {
        ProtocolRegistry { metas: Vec::new() }
    }

    /// Registers a protocol. One whose id or name is taken is refused and
    /// the registry stays as it was.
    pub fn insert(&mut self, meta: ProtocolMeta) -> (r: Result<(), RegistryError>)
        requires
            old(self).wf(),
        ensures
            final(self).wf(),
            r == if has_id(old(self).metas@, meta.id) {
                Err::<(), RegistryError>(RegistryError::DuplicateId)
            } else if has_name(old(self).metas@, meta.name@) {
                Err::<(), RegistryError>(RegistryError::DuplicateName)
            } else {
                Ok::<(), RegistryError>(())
            },
            r is Ok ==> final(self).metas@ == old(self).metas@.push(meta),
            r is Err ==> final(self).metas@ == old(self).metas@,
    {
        let mut name_taken = false;
        let mut i: usize = 0;
        while i < self.metas.len()
            invariant
                i <= self.metas.len(),
                self.wf(),
                self.metas@ == old(self).metas@,
                forall|j: int| 0 <= j < i ==> (#[trigger] self.metas@[j]).id != meta.id,
                name_taken == has_name(self.metas@.take(i as int), meta.name@),
            decreases self.metas.len() - i,
        {
            if self.metas[i].id.0 == meta.id.0 {
                assert(self.metas@[i as int].id == meta.id);
                return Err(RegistryError::DuplicateId);
            }
            let same = same_text(self.metas[i].name.as_str(), meta.name.as_str());
            proof {
                let before = self.metas@.take(i as int);
                let after = self.metas@.take(i + 1);
                if has_name(before, meta.name@) {
                    let k = choose|k: int|
                        0 <= k < before.len() && (#[trigger] before[k]).name@ == meta.name@;
                    assert(after[k].name@ == meta.name@);
                }
                if same {
                    assert(after[i as int].name@ == meta.name@);
                }
                if has_name(after, meta.name@) && !same {
                    let k = choose|k: int|
                        0 <= k < after.len() && (#[trigger] after[k]).name@ == meta.name@;
                    assert(before[k].name@ == meta.name@);
                }
            }
            if same {
                name_taken = true;
            }
            i += 1;
        }
        assert(self.metas@.take(self.metas.len() as int) == self.metas@);
        if name_taken {
            return Err(RegistryError::DuplicateName);
        }
        proof {
            let ghost all = self.metas@.push(meta);
            assert forall|a: int, b: int| 0 <= a < b < all.len() implies (#[trigger] all[a]).id != (
            #[trigger] all[b]).id && all[a].name@ != all[b].name@ by {
                if b == self.metas@.len() {
                    assert(self.metas@[a].id != meta.id);
                    assert(self.metas@[a].name@ != meta.name@);
                } else {
                    assert(self.metas@[a].id != self.metas@[b].id);
                }
            }
        }
        self.metas.push(meta);
        Ok(())
    }

    /// Where the protocol registered under `name` stands, if there is one.
    pub fn find(&self, name: &str) -> (r: Option<usize>)
        requires
            self.wf(),
        ensures
            r is Some <==> has_name(self.metas@, name@),
            r matches Some(i) ==> i < self.metas@.len() && self.metas@[i as int].name@ == name@
                && self.spec_resolve(name@) == Some(self.metas@[i as int].id),
            r is None ==> self.spec_resolve(name@) is None,
    {
        let mut i: usize = 0;
        while i < self.metas.len()
            invariant
                i <= self.metas.len(),
                self.wf(),
                forall|j: int| 0 <= j < i ==> (#[trigger] self.metas@[j]).name@ != name@,
            decreases self.metas.len() - i,
        {
            if same_text(self.metas[i].name.as_str(), name) {
                proof {
                    assert(self.metas@[i as int].name@ == name@);
                    let k = choose|k: int|
                        0 <= k < self.metas@.len() && (#[trigger] self.metas@[k]).name@ == name@;
                    assert(k == i) by {
                        if k < i {
                            assert(self.metas@[k].name@ != self.metas@[i as int].name@);
                        } else if k > i {
                            assert(self.metas@[i as int].name@ != self.metas@[k].name@);
                        }
                    }
                }
                return Some(i);
            }
            i += 1;
        }
        None
    }

    /// The id registered under `name`, if any.
    pub fn resolve(&self, name: &str) -> (r: Option<ProtocolId>)
        requires
            self.wf(),
        ensures
            r == self.spec_resolve(name@),
            r is Some <==> has_name(self.metas@, name@),
    {
        match self.find(name) {
            Some(i) => Some(self.metas[i].id),
            None => None,
        }
    }
}

/// Names and ids stand for each other: the name of every registered
/// protocol resolves to the id of that protocol.
pub proof fn lemma_name_resolves_to_id(r: ProtocolRegistry, i: int)
    requires
        r.wf(),
        0 <= i < r.metas@.len(),
    ensures
        r.spec_resolve(r.metas@[i].name@) == Some(r.metas@[i].id),
{
    let name = r.metas@[i].name@;
    assert(r.metas@[i].name@ == name);
    let k = choose|k: int| 0 <= k < r.metas@.len() && (#[trigger] r.metas@[k]).name@ == name;
    if k < i {
        assert(r.metas@[k].name@ != r.metas@[i].name@);
    } else if k > i {
        assert(r.metas@[i].name@ != r.metas@[k].name@);
    }
}

/// The sessions that a message is meant for.
#[derive(Debug, PartialEq, Eq)]
pub enum TargetSession {
    /// Every open session.
    All,
    /// One session.
    Single(SessionId),
    /// The sessions listed.
    Multi(Vec<SessionId>),
}

impl TargetSession {
    /// Whether the session `id` is meant.
    pub open spec fn spec_matches(self, id: SessionId) -> bool {
        match self {
            TargetSession::All => true,
            TargetSession::Single(one) => one == id,
            TargetSession::Multi(ids) => ids@.contains(id),
        }
    }

    /// Whether the session `id` is meant.
    pub fn matches(&self, id: SessionId) -> (r: bool)
        ensures
            r == self.spec_matches(id),
    {
        match self {
            TargetSession::All => true,
            TargetSession::Single(one) => one.0 == id.0,
            TargetSession::Multi(ids) => {
                let mut i: usize = 0;
                while i < ids.len()
                    invariant
                        i <= ids.len(),
                        *self matches TargetSession::Multi(list) && list@ == ids@,
                        forall|j: int| 0 <= j < i ==> ids@[j] != id,
                    decreases ids.len() - i,
                {
                    if ids[i].0 == id.0 {
                        assert(ids@[i as int] == id);
                        return true;
                    }
                    i += 1;
                }
                false
            },
        }
    }
}

/// Those of `open` that `target` means, in the order of `open`.
pub open spec fn spec_recipients(target: TargetSession, open: Seq<SessionId>) -> Seq<SessionId>
    decreases open.len(),
{
    if open.len() == 0 {
        Seq::empty()
    } else {
        let before = spec_recipients(target, open.drop_last());
        if target.spec_matches(open.last()) {
            before.push(open.last())
        } else {
            before
        }
    }
}

/// The open sessions that get a frame of a message for `target`: one
/// frame for each open session that is meant, and none for any other.
pub fn recipients(target: &TargetSession, open: &Vec<SessionId>) -> (r: Vec<SessionId>)
    ensures
        r@ == spec_recipients(*target, open@),
{
    let mut r: Vec<SessionId> = Vec::new();
    let mut i: usize = 0;
    while i < open.len()
        invariant
            i <= open.len(),
            r@ == spec_recipients(*target, open@.take(i as int)),
        decreases open.len() - i,
    {
        proof {
            assert(open@.take(i + 1).drop_last() == open@.take(i as int));
        }
        if target.matches(open[i]) {
            r.push(open[i]);
        }
        i += 1;
    }
    assert(open@.take(open.len() as int) == open@);
    r
}

/// A message for every session reaches every open session.
pub proof fn lemma_broadcast_reaches_all(open: Seq<SessionId>)
    ensures
        spec_recipients(TargetSession::All, open) == open,
    decreases open.len(),
{
    if open.len() > 0 {
        lemma_broadcast_reaches_all(open.drop_last());
        assert(open.drop_last().push(open.last()) == open);
    }
}

/// The recipients are exactly the open sessions that are meant.
pub proof fn lemma_recipients_are_the_targets(
    target: TargetSession,
    open: Seq<SessionId>,
    id: SessionId,
)
    ensures
        spec_recipients(target, open).contains(id) <==> open.contains(id) && target.spec_matches(
            id,
        ),
    decreases open.len(),
{
    if open.len() > 0 {
        let init = open.drop_last();
        lemma_recipients_are_the_targets(target, init, id);
        let before = spec_recipients(target, init);
        if open.contains(id) {
            let k = choose|k: int| 0 <= k < open.len() && open[k] == id;
            if k < init.len() {
                assert(init[k] == id);
            }
        }
        if init.contains(id) {
            let k = choose|k: int| 0 <= k < init.len() && init[k] == id;
            assert(open[k] == id);
        }
        if target.spec_matches(open.last()) {
            let all = before.push(open.last());
            if all.contains(id) {
                let k = choose|k: int| 0 <= k < all.len() && all[k] == id;
                if k < before.len() {
                    assert(before[k] == id);
                }
            }
            if before.contains(id) {
                let k = choose|k: int| 0 <= k < before.len() && before[k] == id;
                assert(all[k] == id);
            }
            assert(all[before.len() as int] == open.last());
            assert(open[open.len() - 1] == open.last());
        }
    }
}

} // verus!
