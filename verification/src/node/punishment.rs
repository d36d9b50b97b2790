//! What happens to peers that misbehave.

use vstd::prelude::*;

use crate::node::messages::{NodeRequest, RequestView, WireError};
use crate::node::peer::{ConnectionKind, LocalPeerView, PeerId, PeerStatus};
use crate::node::state::{NodeView, UtreexoNode};

verus! {

/// A score after it was increased; it stops at the largest that fits.
pub open spec fn increased(banscore: u32, factor: u32) -> u32 {
    if banscore + factor <= u32::MAX {
        (banscore + factor) as u32
    } else {
        u32::MAX
    }
}

impl NodeView {
    /// What comes of banning a peer: it is told to go, unless our user asked for the
    /// connection.
    pub open spec fn banned(self, id: u32) -> (NodeView, Result<(), WireError>) {
        if !self.peers.contains_key(id) || self.peers[id].kind is Manual {
            (self, Ok(()))
        } else {
            self.with_peer(
                id,
                LocalPeerView { state: PeerStatus::Banned, ..self.peers[id] },
            ).handed_over(id, RequestView::Shutdown)
        }
    }

    /// What comes of increasing the score of a peer: it is banned once the score is too high,
    /// and an extra peer at once. Nothing happens to connections our user asked for.
    pub open spec fn punished(self, id: u32, factor: u32) -> (NodeView, Result<(), WireError>) {
        if !self.peers.contains_key(id) || self.peers[id].kind is Manual {
            (self, Ok(()))
        } else {
            let peer = self.peers[id];
            let banscore = increased(peer.banscore, factor);
            let scored = self.with_peer(id, LocalPeerView { banscore, ..peer });
            if banscore >= self.max_banscore || peer.kind is Extra {
                scored.banned(id)
            } else {
                (scored, Ok(()))
            }
        }
    }
}

impl UtreexoNode {
    /// Increases the "banscore" of a peer.
    ///
    /// This is a always increasing number that, if reaches our `max_banscore` setting,
    /// will cause our peer to be banned for one BANTIME.
    /// The amount of each increment is given by factor, and it's calibrated for each misbehaving
    /// action that a peer may incur in.
    pub fn increase_banscore(&mut self, peer_id: u32, factor: u32) -> (r: Result<(), WireError>)
        ensures
            (final(self)@, r) == old(self)@.punished(peer_id, factor),
    {
        let ghost before = self@;
        let Some(mut peer) = self.take_peer(peer_id) else {
            assert(self@.peers =~= before.peers);
            return Ok(());
        };
        // Manual connections are exempt from being punished
        if peer.is_manual_peer() {
            self.put_back(peer_id, peer, Ghost(before));
            assert(self@.peers =~= before.peers);
            return Ok(());
        }
        peer.banscore = peer.banscore.saturating_add(factor);
        // This peer is misbehaving too often, ban it
        let is_misbehaving = peer.banscore >= self.common.max_banscore;
        // extra peers should be banned immediately
        let is_extra = peer.kind == ConnectionKind::Extra;
        self.put_back(peer_id, peer, Ghost(before));
        if is_misbehaving || is_extra {
            return self.disconnect_and_ban(peer_id);
        }
        Ok(())
    }

    /// Disconnects a peer and bans it for the ban time of the context.
    pub fn disconnect_and_ban(&mut self, peer: PeerId) -> (r: Result<(), WireError>)
        ensures
            (final(self)@, r) == old(self)@.banned(peer),
    {
        let ghost before = self@;
        let Some(mut data) = self.take_peer(peer) else {
            assert(self@.peers =~= before.peers);
            return Ok(());
        };
        // Manual connections are exempt from being punished
        if data.is_manual_peer() {
            self.put_back(peer, data, Ghost(before));
            assert(self@.peers =~= before.peers);
            return Ok(());
        }
        // the address is marked as banned once the peer is gone
        data.state = PeerStatus::Banned;
        self.put_back(peer, data, Ghost(before));
        self.send_to_peer(peer, NodeRequest::Shutdown)
    }
}

} // verus!
