//! The sessions of a device: which peer an index and an identifier belong to.

use crate::hybrid_v23::messages::{session_index, session_index_spec, SessionId};
use crate::session_table::{
    by_index, by_sid, index_clear, index_contains, index_drop_value, index_get, index_insert,
    index_keep_known, index_remove, known_sessions, new_index_table, new_sid_table, sid_clear,
    sid_contains, sid_drop_value, sid_get, sid_insert, sid_remove, without_value,
};
use dashmap::DashMap;
use vstd::prelude::*;

verus! {

/// The sessions of a device: the peers of the indices, the identifiers of the indices, and
/// the peers of the identifiers.
pub struct Sessions {
    id_map: DashMap<u32, [u8; 32]>,
    id_to_sid: DashMap<u32, [u8; 32]>,
    sid_map: DashMap<[u8; 32], [u8; 32]>,
}

/// The index of a session identifier.
pub open spec fn index_of(sid: SessionId) -> u32 {
    session_index_spec(sid@) as u32
}

/// The sessions of a device.
#[verifier::ext_equal]
pub ghost struct SessionView {
    pub peers: Map<u32, [u8; 32]>,
    pub sids: Map<u32, SessionId>,
    pub sid_peers: Map<SessionId, [u8; 32]>,
}

impl SessionView {
    pub open spec fn empty() -> Self {
        SessionView { peers: Map::empty(), sids: Map::empty(), sid_peers: Map::empty() }
    }

    /// Indices and identifiers stand for each other: every index in use belongs to one
    /// identifier, every identifier in use to the index in its first bytes, and both to the
    /// same peer. The index zero is not in use.
    pub open spec fn wf(self) -> bool {
        &&& self.peers.dom() == self.sids.dom()
        &&& !self.peers.contains_key(0)
        &&& forall|id: u32| #[trigger]
            self.sids.contains_key(id) ==> {
                let sid = self.sids[id];
                index_of(sid) == id && self.sid_peers.contains_key(sid) && self.sid_peers[sid]
                    == self.peers[id]
            }
        &&& forall|sid: SessionId| #[trigger]
            self.sid_peers.contains_key(sid) ==> self.sids.contains_key(index_of(sid))
                && self.sids[index_of(sid)] == sid
    }

    /// May a session with this identifier be opened?
    pub open spec fn is_free(self, sid: SessionId) -> bool {
        &&& index_of(sid) != 0
        &&& !self.peers.contains_key(index_of(sid))
        &&& !self.sid_peers.contains_key(sid)
    }

    /// With a session of a peer.
    pub open spec fn allocated(self, sid: SessionId, pk_hash: [u8; 32]) -> Self {
        SessionView {
            peers: self.peers.insert(index_of(sid), pk_hash),
            sids: self.sids.insert(index_of(sid), sid),
            sid_peers: self.sid_peers.insert(sid, pk_hash),
        }
    }

    /// Without the session with this index.
    pub open spec fn freed(self, id: u32) -> Self {
        SessionView {
            peers: self.peers.remove(id),
            sids: self.sids.remove(id),
            sid_peers: if self.sids.contains_key(id) {
                self.sid_peers.remove(self.sids[id])
            } else {
                self.sid_peers
            },
        }
    }

    /// Without the sessions with these indices.
    pub open spec fn freed_all(self, ids: Seq<u32>) -> Self
        decreases ids.len(),
    {
        if ids.len() == 0 {
            self
        } else {
            self.freed_all(ids.drop_last()).freed(ids.last())
        }
    }

    /// Without the sessions of a peer.
    pub open spec fn without_peer(self, pk_hash: [u8; 32]) -> Self {
        let peers = without_value(self.peers, pk_hash);
        let sid_peers = without_value(self.sid_peers, pk_hash);
        SessionView { peers, sids: known_sessions(self.sids, peers, sid_peers), sid_peers }
    }
}

/// Opening a session keeps the sessions consistent; the session is known by its index and by
/// its identifier, and all others are as before.
pub proof fn law_allocated(sessions: SessionView, sid: SessionId, pk_hash: [u8; 32])
    requires
        sessions.wf(),
        sessions.is_free(sid),
    ensures
        ({
            let after = sessions.allocated(sid, pk_hash);
            &&& after.wf()
            &&& after.peers.contains_key(index_of(sid)) && after.peers[index_of(sid)] == pk_hash
            &&& after.sid_peers.contains_key(sid) && after.sid_peers[sid] == pk_hash
            &&& forall|id: u32|
                id != index_of(sid) ==> (after.peers.contains_key(id) <==> #[trigger]
                sessions.peers.contains_key(id))
        }),
{
    let after = sessions.allocated(sid, pk_hash);
    assert(after.peers.dom() =~= after.sids.dom());
    assert forall|id: u32| #[trigger] after.sids.contains_key(id) implies {
        let s = after.sids[id];
        index_of(s) == id && after.sid_peers.contains_key(s) && after.sid_peers[s]
            == after.peers[id]
    } by {
        if id != index_of(sid) {
            assert(sessions.sids.contains_key(id));
        }
    }
}

/// Closing a session keeps the sessions consistent; the session is no longer known by its
/// index nor by its identifier.
pub proof fn law_freed(sessions: SessionView, id: u32)
    requires
        sessions.wf(),
    ensures
        sessions.freed(id).wf(),
        !sessions.freed(id).peers.contains_key(id),
        forall|sid: SessionId|
            index_of(sid) == id ==> !#[trigger] sessions.freed(id).sid_peers.contains_key(sid),
        forall|other: u32|
            other != id ==> (#[trigger] sessions.freed(id).peers.contains_key(other)
                <==> sessions.peers.contains_key(other)),
{
    let after = sessions.freed(id);
    assert(after.peers.dom() =~= after.sids.dom());
    assert forall|k: u32| #[trigger] after.sids.contains_key(k) implies {
        let s = after.sids[k];
        index_of(s) == k && after.sid_peers.contains_key(s) && after.sid_peers[s] == after.peers[k]
    } by {
        assert(sessions.sids.contains_key(k));
    }
    assert forall|sid: SessionId| #[trigger] after.sid_peers.contains_key(sid) implies index_of(sid)
        != id && after.sids.contains_key(index_of(sid)) && after.sids[index_of(sid)] == sid by {
        assert(sessions.sid_peers.contains_key(sid));
    }
}

/// Closing what was just opened leaves the sessions as they were.
pub proof fn law_free_undoes_allocate(sessions: SessionView, sid: SessionId, pk_hash: [u8; 32])
    requires
        sessions.wf(),
        sessions.is_free(sid),
    ensures
        sessions.allocated(sid, pk_hash).freed(index_of(sid)) == sessions,
{
    let after = sessions.allocated(sid, pk_hash).freed(index_of(sid));
    assert(!sessions.sids.contains_key(index_of(sid)));
    assert(after =~= sessions);
}

/// Closing some sessions keeps the sessions consistent and leaves every other session as it
/// was.
pub proof fn law_freed_all(sessions: SessionView, ids: Seq<u32>, sid: SessionId)
    requires
        sessions.wf(),
        !ids.contains(index_of(sid)),
    ensures
        sessions.freed_all(ids).wf(),
        sessions.freed_all(ids).sid_peers.contains_key(sid) <==> sessions.sid_peers.contains_key(
            sid,
        ),
        sessions.sid_peers.contains_key(sid) ==> sessions.freed_all(ids).sid_peers[sid]
            == sessions.sid_peers[sid],
    decreases ids.len(),
{
    if ids.len() > 0 {
        let before = sessions.freed_all(ids.drop_last());
        assert forall|id: u32| ids.drop_last().contains(id) implies ids.contains(id) by {
            let n = choose|n: int| 0 <= n < ids.len() - 1 && ids.drop_last()[n] == id;
            assert(ids[n] == id);
        }
        law_freed_all(sessions, ids.drop_last(), sid);
        law_freed(before, ids.last());
        assert(ids.contains(ids.last())) by {
            assert(ids[ids.len() - 1] == ids.last());
        }
    }
}

/// Removing a peer keeps the sessions consistent and leaves no session of that peer.
pub proof fn law_without_peer(sessions: SessionView, pk_hash: [u8; 32])
    requires
        sessions.wf(),
    ensures
        sessions.without_peer(pk_hash).wf(),
        forall|id: u32| #[trigger]
            sessions.without_peer(pk_hash).peers.contains_key(id) <==> sessions.peers.contains_key(
                id,
            ) && sessions.peers[id] != pk_hash,
{
    let after = sessions.without_peer(pk_hash);
    assert forall|id: u32| after.peers.dom().contains(id) <==> after.sids.dom().contains(id) by {
        if after.peers.dom().contains(id) {
            assert(sessions.sids.contains_key(id));
        }
    }
    assert(after.peers.dom() =~= after.sids.dom());
    assert forall|id: u32| #[trigger] after.sids.contains_key(id) implies {
        let s = after.sids[id];
        index_of(s) == id && after.sid_peers.contains_key(s) && after.sid_peers[s]
            == after.peers[id]
    } by {
        assert(sessions.sids.contains_key(id));
    }
    assert forall|sid: SessionId| #[trigger] after.sid_peers.contains_key(sid) implies (
    after.sids.contains_key(index_of(sid)) && after.sids[index_of(sid)] == sid) by {
        assert(sessions.sid_peers.contains_key(sid));
        assert(sessions.sids.contains_key(index_of(sid)));
    }
}

impl Sessions {
    pub closed spec fn view(&self) -> SessionView {
        SessionView {
            peers: by_index(self.id_map),
            sids: by_index(self.id_to_sid),
            sid_peers: by_sid(self.sid_map),
        }
    }

    pub fn new() -> (r: Self)
        ensures
            r@ == SessionView::empty(),
            r@.wf(),
    {
        let r = Sessions {
            id_map: new_index_table(),
            id_to_sid: new_index_table(),
            sid_map: new_sid_table(),
        };
        assert(r@ =~= SessionView::empty());
        r
    }

    /// Closes all sessions.
    pub fn clear(&mut self)
        ensures
            final(self)@ == SessionView::empty(),
            final(self)@.wf(),
    {
        index_clear(&mut self.id_map);
        index_clear(&mut self.id_to_sid);
        sid_clear(&mut self.sid_map);
        assert(self@ =~= SessionView::empty());
    }

    /// The peer of an index.
    pub fn peer_of_index(&self, id: u32) -> (r: Option<[u8; 32]>)
        ensures
            r == (if self@.peers.contains_key(id) {
                Some(self@.peers[id])
            } else {
                None
            }),
    {
        index_get(&self.id_map, id)
    }

    /// The peer of an identifier.
    pub fn peer_of_sid(&self, sid: &SessionId) -> (r: Option<[u8; 32]>)
        ensures
            r == (if self@.sid_peers.contains_key(*sid) {
                Some(self@.sid_peers[*sid])
            } else {
                None
            }),
    {
        sid_get(&self.sid_map, sid)
    }

    /// Opens a session of a peer with this identifier, if it is free.
    pub fn allocate(&mut self, sid: SessionId, pk_hash: [u8; 32]) -> (r: bool)
        requires
            old(self)@.wf(),
        ensures
            final(self)@.wf(),
            r == old(self)@.is_free(sid),
            final(self)@ == (if r {
                old(self)@.allocated(sid, pk_hash)
            } else {
                old(self)@
            }),
    {
        let id = session_index(&sid);
        if id == 0 || index_contains(&self.id_map, id) || sid_contains(&self.sid_map, &sid) {
            return false;
        }
        proof {
            law_allocated(self@, sid, pk_hash);
        }
        index_insert(&mut self.id_map, id, pk_hash);
        index_insert(&mut self.id_to_sid, id, sid);
        sid_insert(&mut self.sid_map, sid, pk_hash);
        true
    }

    /// Closes the session with this index, if there is one.
    pub fn free(&mut self, id: u32)
        requires
            old(self)@.wf(),
        ensures
            final(self)@.wf(),
            final(self)@ == old(self)@.freed(id),
    {
        proof {
            law_freed(self@, id);
        }
        let _ = index_remove(&mut self.id_map, id);
        match index_remove(&mut self.id_to_sid, id) {
            Some(sid) => sid_remove(&mut self.sid_map, &sid),
            None => {},
        }
    }

    /// Closes the sessions with these indices.
    pub fn free_all(&mut self, ids: &Vec<u32>)
        requires
            old(self)@.wf(),
        ensures
            final(self)@.wf(),
            final(self)@ == old(self)@.freed_all(ids@),
    {
        let mut i: usize = 0;
        assert(old(self)@.freed_all(ids@.take(0)) == old(self)@);
        while i < ids.len()
            invariant
                i <= ids@.len(),
                self@.wf(),
                self@ == old(self)@.freed_all(ids@.take(i as int)),
            decreases ids@.len() - i,
        {
            assert(ids@.take(i + 1).drop_last() =~= ids@.take(i as int));
            self.free(ids[i]);
            i += 1;
        }
        assert(ids@.take(i as int) =~= ids@);
    }

    /// Closes the sessions of a peer.
    pub fn remove_peer(&mut self, pk_hash: &[u8; 32])
        requires
            old(self)@.wf(),
        ensures
            final(self)@.wf(),
            final(self)@ == old(self)@.without_peer(*pk_hash),
    {
        proof {
            law_without_peer(self@, *pk_hash);
        }
        index_drop_value(&mut self.id_map, pk_hash);
        sid_drop_value(&mut self.sid_map, pk_hash);
        index_keep_known(&mut self.id_to_sid, &self.id_map, &self.sid_map);
    }
}

} // verus!
