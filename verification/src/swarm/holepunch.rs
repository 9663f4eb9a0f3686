//! Holepunches that a firewalled swarm prepared and waits for.

use std::collections::HashMap;

use vstd::prelude::*;

use super::state::{Admission, SwarmState};
use crate::counter::{count_up, wrap_u64};
use crate::hyperdht_messages::{
    reply_mode, reply_mode_of, HolepunchMessage, HolepunchPayload, ERROR_NONE, FIREWALL_UNKNOWN,
};
use crate::messages::{peers_view, Ipv4Peer};
use crate::peer_discovery::copy_peers;
use crate::table::Table;

verus! {

broadcast use vstd::std_specs::hash::group_hash_axioms;

/// A holepunch that is waited for.
#[derive(Debug)]
pub struct InFlight {
    /// The peer.
    pub remote_pk: [u8; 32],
    /// Highest round that was seen.
    pub round: u64,
    /// Whether the puncher is still at hand, because punching has not begun.
    pub puncher_held: bool,
    /// The addresses at which the own side can be punched.
    pub local_punch_addrs: Vec<Ipv4Peer>,
}

/// What is known of a holepunch.
#[verifier::ext_equal]
pub struct InFlightModel {
    /// See [`InFlight::remote_pk`].
    pub remote_pk: [u8; 32],
    /// See [`InFlight::round`].
    pub round: u64,
    /// See [`InFlight::puncher_held`].
    pub puncher_held: bool,
    /// See [`InFlight::local_punch_addrs`].
    pub local_punch_addrs: Seq<(Seq<char>, u16)>,
}

impl View for InFlight {
    type V = InFlightModel;

    open spec fn view(&self) -> InFlightModel {
        InFlightModel {
            remote_pk: self.remote_pk,
            round: self.round,
            puncher_held: self.puncher_held,
            local_punch_addrs: peers_view(self.local_punch_addrs@),
        }
    }
}

/// What is waited for, as mathematical values.
#[verifier::ext_equal]
pub struct PunchModel {
    /// Holepunches by id.
    pub connects: Map<u64, InFlightModel>,
    /// Id of the latest holepunch with each peer.
    pub pending: Map<[u8; 32], u64>,
    /// Id of the next holepunch.
    pub next_id: u64,
}

/// What is known of the holepunches of a table.
pub open spec fn flight_models(m: Map<u64, InFlight>) -> Map<u64, InFlightModel> {
    m.map_values(|e: InFlight| e@)
}

impl PunchModel {
    /// The holepunch that a new one with the same peer replaces.
    pub open spec fn replaced(self, pk: [u8; 32]) -> Option<u64> {
        if self.pending.contains_key(pk) && self.connects.contains_key(self.pending[pk]) {
            Some(self.pending[pk])
        } else {
            None
        }
    }

    /// A prepared holepunch is waited for from now on.
    pub open spec fn committed(
        self,
        id: u64,
        pk: [u8; 32],
        addrs: Seq<(Seq<char>, u16)>,
    ) -> Self {
        let kept = match self.replaced(pk) {
            Some(old_id) => self.connects.remove(old_id),
            None => self.connects,
        };
        PunchModel {
            connects: kept.insert(
                id,
                InFlightModel {
                    remote_pk: pk,
                    round: 0,
                    puncher_held: true,
                    local_punch_addrs: addrs,
                },
            ),
            pending: self.pending.insert(pk, id),
            ..self
        }
    }

    /// A holepunch is not waited for any more.
    pub open spec fn ended(self, id: u64) -> Self {
        if self.connects.contains_key(id) {
            PunchModel {
                connects: self.connects.remove(id),
                pending: self.pending.remove(self.connects[id].remote_pk),
                ..self
            }
        } else {
            self
        }
    }

    /// A round of a holepunch came in.
    pub open spec fn advanced(self, id: u64, round: u64, punching: bool) -> Self {
        if self.connects.contains_key(id) {
            let e = self.connects[id];
            PunchModel {
                connects: self.connects.insert(
                    id,
                    InFlightModel {
                        round: if round > e.round {
                            round
                        } else {
                            e.round
                        },
                        puncher_held: e.puncher_held && !punching,
                        ..e
                    },
                ),
                ..self
            }
        } else {
            self
        }
    }

    /// What a round asks for: the puncher hears of it while it is at hand, and punching begins
    /// where the round asks for it. A holepunch that is not waited for has no plan.
    pub open spec fn plan(self, id: u64, punching: bool) -> Option<RoundPlan> {
        if self.connects.contains_key(id) {
            let held = self.connects[id].puncher_held;
            Some(RoundPlan { update_puncher: held, start_punching: held && punching })
        } else {
            None
        }
    }

    /// Each peer has at most one holepunch, and it is the one listed under its key.
    pub open spec fn one_per_peer(self) -> bool {
        &&& forall|id: u64| #[trigger]
            self.connects.contains_key(id) ==> self.pending.contains_key(
                self.connects[id].remote_pk,
            ) && self.pending[self.connects[id].remote_pk] == id
        &&& forall|pk: [u8; 32]| #[trigger]
            self.pending.contains_key(pk) ==> self.connects.contains_key(self.pending[pk])
                && self.connects[self.pending[pk]].remote_pk == pk
    }
}

/// What a round asks for.
#[derive(Debug, Clone, Copy, PartialEq, Eq, Structural)]
pub struct RoundPlan {
    /// Tell the puncher what the round says of the other side.
    pub update_puncher: bool,
    /// Begin to punch.
    pub start_punching: bool,
}

/// What becomes of a holepunch that landed.
#[derive(Debug, Clone, Copy)]
pub enum Landed {
    /// It was not waited for.
    Unknown,
    /// There is a connection to the peer already.
    AlreadyConnected([u8; 32]),
    /// There are as many connections as there may be.
    AtCapacity([u8; 32]),
    /// The connection has a slot; the stream to the peer is set up.
    Finalize([u8; 32]),
}

/// Holepunches that are waited for.
pub struct PassivePunches {
    connects: HashMap<u64, InFlight>,
    pending_handshakes: Table<[u8; 32], u64>,
    next_holepunch_id: u64,
}

impl View for PassivePunches {
    type V = PunchModel;

    closed spec fn view(&self) -> PunchModel {
        PunchModel {
            connects: flight_models(self.connects@),
            pending: self.pending_handshakes@,
            next_id: self.next_holepunch_id,
        }
    }
}

impl PassivePunches {
    /// The tables are sound.
    pub closed spec fn wf(&self) -> bool {
        self.pending_handshakes.wf()
    }

    /// Nothing is waited for.
    pub fn new() -> (r: Self)
        ensures
            r.wf(),
            r@ == (PunchModel { connects: Map::empty(), pending: Map::empty(), next_id: 0 }),
    {
        let r = PassivePunches {
            connects: HashMap::new(),
            pending_handshakes: Table::new(),
            next_holepunch_id: 0,
        };
        assert(r@.connects =~= Map::empty());
        r
    }

    /// Takes the id for a holepunch that is being prepared.
    pub fn reserve_id(&mut self) -> (id: u64)
        requires
            old(self).wf(),
        ensures
            final(self).wf(),
            id == old(self)@.next_id,
            final(self)@ == (PunchModel { next_id: wrap_u64(id + 1), ..old(self)@ }),
    {
        let id: u64 = self.next_holepunch_id;
        self.next_holepunch_id = count_up(id, 1);
        id
    }

    /// Waits for a prepared holepunch. A holepunch with the same peer that is waited for already is
    /// replaced, and its id is given, so that its timer can be stopped.
    pub fn commit(&mut self, id: u64, remote_pk: [u8; 32], local_punch_addrs: Vec<Ipv4Peer>) -> (r:
        Option<u64>)
        requires
            old(self).wf(),
        ensures
            final(self).wf(),
            r == old(self)@.replaced(remote_pk),
            final(self)@ == old(self)@.committed(id, remote_pk, peers_view(local_punch_addrs@)),
    {
        let ghost m = self@;
        let ghost addrs = peers_view(local_punch_addrs@);
        let earlier: Option<u64> = match self.pending_handshakes.get(&remote_pk) {
            Some(e) => Some(*e),
            None => None,
        };
        self.pending_handshakes.insert(remote_pk, id);
        let mut replaced: Option<u64> = None;
        if let Some(old_id) = earlier {
            if self.connects.remove(&old_id).is_some() {
                replaced = Some(old_id);
            }
        }
        self.connects.insert(
            id,
            InFlight { remote_pk, round: 0, puncher_held: true, local_punch_addrs },
        );
        assert(self@ =~= m.committed(id, remote_pk, addrs));
        replaced
    }

    /// Whether a holepunch is waited for.
    pub fn knows(&self, id: u64) -> (r: bool)
        requires
            self.wf(),
        ensures
            r == self@.connects.contains_key(id),
    {
        self.connects.contains_key(&id)
    }

    /// Takes a round of a holepunch in. A holepunch that is not waited for has no plan. Punching
    /// begins at most once, in the first round that asks for it.
    pub fn on_round(&mut self, id: u64, round: u64, punching: bool) -> (r: Option<RoundPlan>)
        requires
            old(self).wf(),
        ensures
            final(self).wf(),
            final(self)@ == old(self)@.advanced(id, round, punching),
            r == old(self)@.plan(id, punching),
    {
        let ghost m = self@;
        let mut entry: InFlight = match self.connects.remove(&id) {
            Some(e) => e,
            None => {
                assert(self@ =~= m);
                return None;
            },
        };
        let held: bool = entry.puncher_held;
        if round > entry.round {
            entry.round = round;
        }
        if punching {
            entry.puncher_held = false;
        }
        self.connects.insert(id, entry);
        assert(self@ =~= m.advanced(id, round, punching));
        Some(RoundPlan { update_puncher: held, start_punching: held && punching })
    }

    /// The answer to a round of a holepunch. `server_firewall` is nothing where it could not be
    /// found out, and `token` is the one that belongs to the peer's host.
    pub fn round_reply(
        &self,
        id: u64,
        server_firewall: Option<u64>,
        remote: &HolepunchPayload,
        peer_address: Ipv4Peer,
        token: [u8; 32],
    ) -> (r: Option<HolepunchPayload>)
        requires
            self.wf(),
        ensures
            match r {
                Some(p) => {
                    &&& self@.connects.contains_key(id)
                    &&& p.error == ERROR_NONE
                    &&& p.firewall == (match server_firewall {
                        Some(f) => f,
                        None => FIREWALL_UNKNOWN,
                    })
                    &&& p.round == remote.round
                    &&& !p.connected
                    &&& p.punching == remote.punching
                    &&& p.addresses matches Some(a) && peers_view(a@)
                        == self@.connects[id].local_punch_addrs
                    &&& p.remote_address == Some(peer_address)
                    &&& p.token == Some(token)
                    &&& p.remote_token == remote.token
                },
                None => !self@.connects.contains_key(id),
            },
    {
        match self.connects.get(&id) {
            None => None,
            Some(entry) => Some(
                HolepunchPayload {
                    error: ERROR_NONE,
                    firewall: match server_firewall {
                        Some(f) => f,
                        None => FIREWALL_UNKNOWN,
                    },
                    round: remote.round,
                    connected: false,
                    punching: remote.punching,
                    addresses: Some(copy_peers(&entry.local_punch_addrs)),
                    remote_address: Some(peer_address),
                    token: Some(token),
                    remote_token: remote.token,
                },
            ),
        }
    }

    /// Takes in that a holepunch landed: the connection gets a slot, unless there is one to the
    /// peer already or no slot is free.
    pub fn on_punched(&mut self, id: u64, swarm: &mut SwarmState) -> (r: Landed)
        requires
            old(self).wf(),
            old(swarm).wf(),
        ensures
            final(self).wf(),
            final(swarm).wf(),
            final(self)@ == old(self)@.ended(id),
            if old(self)@.connects.contains_key(id) {
                let pk = old(self)@.connects[id].remote_pk;
                &&& r == (match old(swarm)@.admission(pk, true) {
                    Admission::AlreadyConnected => Landed::AlreadyConnected(pk),
                    Admission::Accepted => Landed::Finalize(pk),
                    _ => Landed::AtCapacity(pk),
                })
                &&& final(swarm)@ == old(swarm)@.admitted(pk, true)
            } else {
                r == Landed::Unknown && final(swarm)@ == old(swarm)@
            },
    {
        match self.end(id) {
            None => Landed::Unknown,
            Some((pk, _)) => match swarm.accept_inbound(pk, true) {
                Admission::AlreadyConnected => Landed::AlreadyConnected(pk),
                Admission::Accepted => Landed::Finalize(pk),
                _ => Landed::AtCapacity(pk),
            },
        }
    }

    /// Takes in that the time for a holepunch is over. Gives the peer, and whether its puncher is
    /// still to be destroyed; nothing where the holepunch was not waited for.
    pub fn on_abort(&mut self, id: u64) -> (r: Option<([u8; 32], bool)>)
        requires
            old(self).wf(),
        ensures
            final(self).wf(),
            final(self)@ == old(self)@.ended(id),
            r == (if old(self)@.connects.contains_key(id) {
                let e = old(self)@.connects[id];
                Some((e.remote_pk, e.puncher_held))
            } else {
                None
            }),
    {
        self.end(id)
    }

    fn end(&mut self, id: u64) -> (r: Option<([u8; 32], bool)>)
        requires
            old(self).wf(),
        ensures
            final(self).wf(),
            final(self)@ == old(self)@.ended(id),
            r == (if old(self)@.connects.contains_key(id) {
                let e = old(self)@.connects[id];
                Some((e.remote_pk, e.puncher_held))
            } else {
                None
            }),
    {
        let ghost m = self@;
        match self.connects.remove(&id) {
            None => {
                assert(self@ =~= m);
                None
            },
            Some(entry) => {
                self.pending_handshakes.remove(&entry.remote_pk);
                assert(self@ =~= m.ended(id));
                Some((entry.remote_pk, entry.puncher_held))
            },
        }
    }
}

/// The answer to a holepunch message, where its encrypted part could be made.
pub fn punch_reply(mode: u64, id: u64, encrypted: Option<Vec<u8>>, peer_address: Ipv4Peer) -> (r:
    Option<HolepunchMessage>)
    ensures
        r == (match encrypted {
            Some(payload) => Some(
                HolepunchMessage {
                    mode: reply_mode_of(mode),
                    id,
                    payload,
                    peer_address: Some(peer_address),
                },
            ),
            None => None,
        }),
{
    match encrypted {
        Some(payload) => Some(
            HolepunchMessage {
                mode: reply_mode(mode),
                id,
                payload,
                peer_address: Some(peer_address),
            },
        ),
        None => None,
    }
}

/// As long as ids are not reused while they are waited for, each peer has at most one holepunch:
/// that holds at first, and committing, advancing and ending keep it.
pub proof fn law_one_holepunch_per_peer(
    m: PunchModel,
    id: u64,
    pk: [u8; 32],
    addrs: Seq<(Seq<char>, u16)>,
    round: u64,
    punching: bool,
)
    requires
        m.one_per_peer(),
    ensures
        (PunchModel { connects: Map::empty(), pending: Map::empty(), next_id: 0 }).one_per_peer(),
        !m.connects.contains_key(id) ==> m.committed(id, pk, addrs).one_per_peer(),
        m.ended(id).one_per_peer(),
        m.advanced(id, round, punching).one_per_peer(),
{
    if !m.connects.contains_key(id) {
        let n = m.committed(id, pk, addrs);
        assert forall|i: u64| #[trigger] n.connects.contains_key(i) implies n.pending.contains_key(
            n.connects[i].remote_pk,
        ) && n.pending[n.connects[i].remote_pk] == i by {
            if i != id {
                assert(m.connects.contains_key(i));
                if m.connects[i].remote_pk == pk {
                    assert(m.pending[pk] == i);
                }
            }
        }
        assert forall|x: [u8; 32]| #[trigger] n.pending.contains_key(x) implies
            n.connects.contains_key(n.pending[x]) && n.connects[n.pending[x]].remote_pk == x by {
            if x != pk {
                assert(m.pending.contains_key(x));
                assert(m.connects[m.pending[x]].remote_pk == x);
            }
        }
    }
    let e = m.ended(id);
    assert forall|i: u64| #[trigger] e.connects.contains_key(i) implies e.pending.contains_key(
        e.connects[i].remote_pk,
    ) && e.pending[e.connects[i].remote_pk] == i by {
        assert(m.connects.contains_key(i));
        assert(m.pending[m.connects[i].remote_pk] == i);
    }
    assert forall|x: [u8; 32]| #[trigger] e.pending.contains_key(x) implies
        e.connects.contains_key(e.pending[x]) && e.connects[e.pending[x]].remote_pk == x by {
        assert(m.pending.contains_key(x));
    }
    let a = m.advanced(id, round, punching);
    assert forall|i: u64| #[trigger] a.connects.contains_key(i) implies a.pending.contains_key(
        a.connects[i].remote_pk,
    ) && a.pending[a.connects[i].remote_pk] == i by {
        assert(m.connects.contains_key(i));
    }
    assert forall|x: [u8; 32]| #[trigger] a.pending.contains_key(x) implies
        a.connects.contains_key(a.pending[x]) && a.connects[a.pending[x]].remote_pk == x by {
        assert(m.pending.contains_key(x));
    }
}

/// Punching begins in the first round that asks for it, and in none after that. Rounds that come
/// out of order do not lower the highest round.
pub proof fn law_punching_begins_once(
    m: PunchModel,
    id: u64,
    r1: u64,
    r2: u64,
    p1: bool,
    p2: bool,
)
    requires
        m.connects.contains_key(id),
    ensures
        m.connects[id].puncher_held ==> m.plan(id, true) == Some(
            RoundPlan { update_puncher: true, start_punching: true },
        ),
        m.advanced(id, r1, true).plan(id, p2) == Some(
            RoundPlan { update_puncher: false, start_punching: false },
        ),
        m.advanced(id, r1, true).advanced(id, r2, p1).plan(id, p2) == Some(
            RoundPlan { update_puncher: false, start_punching: false },
        ),
        m.advanced(id, r1, p1).connects[id].round >= m.connects[id].round,
        m.advanced(id, r1, p1).connects[id].round >= r1,
{
}

/// A prepared holepunch is waited for from now on under its id, with its peer and its addresses, at
/// round zero and with the puncher at hand. An earlier one with the same peer is not waited for any
/// more, and those with other peers stay as they are.
pub proof fn law_committed_holepunch_is_waited_for(
    m: PunchModel,
    id: u64,
    pk: [u8; 32],
    addrs: Seq<(Seq<char>, u16)>,
)
    requires
        m.one_per_peer(),
        !m.connects.contains_key(id),
    ensures
        ({
            let after = m.committed(id, pk, addrs);
            &&& after.connects.contains_key(id)
            &&& after.connects[id].remote_pk == pk && after.connects[id].round == 0
                && after.connects[id].puncher_held && after.connects[id].local_punch_addrs == addrs
            &&& after.pending.contains_key(pk) && after.pending[pk] == id
            &&& forall|i: u64|
                #![trigger after.connects.contains_key(i)]
                i != id ==> (after.connects.contains_key(i) <==> m.connects.contains_key(i)
                    && m.connects[i].remote_pk != pk)
            &&& forall|i: u64|
                #![trigger after.connects[i]]
                i != id && after.connects.contains_key(i) ==> after.connects[i] == m.connects[i]
            &&& forall|x: [u8; 32]|
                #![trigger after.pending.contains_key(x)]
                x != pk ==> (after.pending.contains_key(x) <==> m.pending.contains_key(x))
                    && after.pending[x] == m.pending[x]
            &&& after.next_id == m.next_id
            &&& m.replaced(pk) is Some <==> m.pending.contains_key(pk)
            &&& m.replaced(pk) matches Some(i) ==> m.connects.contains_key(i)
                && m.connects[i].remote_pk == pk && !after.connects.contains_key(i)
        }),
{
    let after = m.committed(id, pk, addrs);
    assert forall|i: u64| i != id implies (#[trigger] after.connects.contains_key(i)
        <==> m.connects.contains_key(i) && m.connects[i].remote_pk != pk) by {
        if m.connects.contains_key(i) && m.connects[i].remote_pk == pk {
            assert(m.pending[pk] == i);
        }
        if m.pending.contains_key(pk) {
            assert(m.connects[m.pending[pk]].remote_pk == pk);
        }
    }
}

/// A holepunch that ended is not waited for any more, under its id or its peer; the others are.
pub proof fn law_ended_holepunch_is_forgotten(m: PunchModel, id: u64)
    requires
        m.one_per_peer(),
    ensures
        ({
            let after = m.ended(id);
            &&& after.connects == m.connects.remove(id)
            &&& forall|x: [u8; 32]|
                #![trigger after.pending.contains_key(x)]
                (after.pending.contains_key(x) <==> m.pending.contains_key(x) && m.pending[x]
                    != id) && (after.pending.contains_key(x) ==> after.pending[x] == m.pending[x])
            &&& after.next_id == m.next_id
        }),
{
    let after = m.ended(id);
    if !m.connects.contains_key(id) {
        assert(m.connects.remove(id) =~= m.connects);
    }
    assert forall|x: [u8; 32]|
        (#[trigger] after.pending.contains_key(x) <==> m.pending.contains_key(x) && m.pending[x]
            != id) && (after.pending.contains_key(x) ==> after.pending[x] == m.pending[x]) by {
        if m.pending.contains_key(x) {
            assert(m.connects[m.pending[x]].remote_pk == x);
        }
    }
}

/// The rounds of a holepunch one after the other: each is its number and whether it asks to punch.
pub open spec fn after_rounds(m: PunchModel, id: u64, rounds: Seq<(u64, bool)>) -> PunchModel
    decreases rounds.len(),
{
    if rounds.len() == 0 {
        m
    } else {
        after_rounds(m, id, rounds.drop_last()).advanced(id, rounds.last().0, rounds.last().1)
    }
}

/// After any rounds of a holepunch its round is the highest of them, in whatever order they came.
/// The puncher is at hand as long as none of them asked to punch, and hears of the next round
/// exactly then. Punching begins where the next round asks for it. Peer and addresses stay, and so
/// does every other holepunch.
pub proof fn law_rounds_of_a_holepunch(
    m: PunchModel,
    id: u64,
    rounds: Seq<(u64, bool)>,
    punching: bool,
)
    requires
        m.connects.contains_key(id),
    ensures
        ({
            let after = after_rounds(m, id, rounds);
            let e = after.connects[id];
            let held = m.connects[id].puncher_held && forall|i: int|
                0 <= i < rounds.len() ==> !(#[trigger] rounds[i]).1;
            &&& after.connects.contains_key(id)
            &&& e.round >= m.connects[id].round
            &&& forall|i: int| 0 <= i < rounds.len() ==> e.round >= (#[trigger] rounds[i]).0
            &&& e.round == m.connects[id].round || exists|i: int|
                0 <= i < rounds.len() && e.round == (#[trigger] rounds[i]).0
            &&& e.puncher_held == held
            &&& e.remote_pk == m.connects[id].remote_pk
            &&& e.local_punch_addrs == m.connects[id].local_punch_addrs
            &&& after.connects == m.connects.insert(id, e)
            &&& after.pending == m.pending && after.next_id == m.next_id
            &&& after.plan(id, punching) matches Some(p) && p.update_puncher == held
                && p.start_punching == (held && punching)
        }),
    decreases rounds.len(),
{
    let after = after_rounds(m, id, rounds);
    if rounds.len() == 0 {
        assert(m.connects.insert(id, m.connects[id]) =~= m.connects);
    } else {
        let init = rounds.drop_last();
        let last = rounds.len() - 1;
        law_rounds_of_a_holepunch(m, id, init, punching);
        let b = after_rounds(m, id, init);
        assert forall|i: int| 0 <= i < rounds.len() implies after.connects[id].round >= (
        #[trigger] rounds[i]).0 by {
            if i < last {
                assert(rounds[i] == init[i]);
            }
        }
        if b.connects[id].round != m.connects[id].round {
            let i = choose|i: int|
                0 <= i < init.len() && b.connects[id].round == (#[trigger] init[i]).0;
            assert(rounds[i] == init[i]);
        }
        assert(after.connects[id].round == b.connects[id].round || after.connects[id].round
            == rounds[last as int].0);
        let held = m.connects[id].puncher_held && forall|i: int|
            0 <= i < rounds.len() ==> !(#[trigger] rounds[i]).1;
        if after.connects[id].puncher_held {
            assert forall|i: int| 0 <= i < rounds.len() implies !(#[trigger] rounds[i]).1 by {
                if i < last {
                    assert(!init[i].1);
                }
            }
        } else if held {
            assert(!rounds[last as int].1);
            assert forall|i: int| 0 <= i < init.len() implies !(#[trigger] init[i]).1 by {
                assert(!rounds[i].1);
            }
        }
        assert(after.connects =~= m.connects.insert(id, after.connects[id]));
    }
}

/// A round of a holepunch that is not waited for changes nothing and asks for nothing.
pub proof fn law_unknown_rounds_are_ignored(m: PunchModel, id: u64, round: u64, punching: bool)
    requires
        !m.connects.contains_key(id),
    ensures
        m.advanced(id, round, punching) == m,
        m.plan(id, punching) is None,
{
}

} // verus!
