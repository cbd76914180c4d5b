//! Bookkeeping of the uniform reliable broadcast between bot replicas.

use vstd::prelude::*;

use crate::text::views;

verus! {

broadcast use vstd::seq_lib::group_seq_properties;

/// Errors reported to peers.
pub enum ErrorMessage {
    Unauthenticated,
}

impl ErrorMessage {
    pub open spec fn spec_message(self) -> Seq<char> {
        match self {
            ErrorMessage::Unauthenticated => "Sender is not authenticated"@,
        }
    }

    pub fn get_message(self) -> (r: String)
        ensures
            r@ == self.spec_message(),
    {
        match self {
            ErrorMessage::Unauthenticated => String::from_str("Sender is not authenticated"),
        }
    }
}

/// The error a broadcast request is answered with: an unauthenticated sender
/// is refused, an authenticated one is heard.
pub open spec fn spec_broadcast_refusal(authenticated: bool) -> Option<Seq<char>> {
    if authenticated {
        None
    } else {
        Some(ErrorMessage::Unauthenticated.spec_message())
    }
}

pub fn broadcast_refusal(authenticated: bool) -> (r: Option<String>)
    ensures
        crate::message::opt_view(r) == spec_broadcast_refusal(authenticated),
{
    if authenticated {
        None
    } else {
        Some(ErrorMessage::Unauthenticated.get_message())
    }
}

/// Messages of the broadcast protocol.
#[derive(Clone, Copy, PartialEq, Eq, Structural, Hash, Debug)]
pub enum Protocol {
    Test,
}

/// A set of names, without repetition.
pub struct NameSet {
    names: Vec<String>,
}

impl View for NameSet {
    type V = Set<Seq<char>>;

    closed spec fn view(&self) -> Set<Seq<char>> {
        views(self.names@).to_set()
    }
}

impl NameSet {
    pub closed spec fn wf(&self) -> bool {
        views(self.names@).no_duplicates()
    }

    pub fn new() -> (s: NameSet)
        ensures
            s.wf(),
            s@ == Set::<Seq<char>>::empty(),
    {
        let s = NameSet { names: Vec::new() };
        proof {
            assert(views(s.names@) =~= Seq::<Seq<char>>::empty());
            assert(s@ =~= Set::<Seq<char>>::empty());
        }
        s
    }

    pub fn contains(&self, name: &String) -> (r: bool)
        ensures
            r == self@.contains(name@),
    {
        let mut i: usize = 0;
        while i < self.names.len()
            invariant
                i <= self.names.len(),
                forall|j: int| 0 <= j < i ==> self.names@[j]@ != name@,
            decreases self.names.len() - i,
        {
            if self.names[i] == *name {
                proof {
                    assert(views(self.names@)[i as int] == name@);
                }
                return true;
            }
            i = i + 1;
        }
        proof {
            if self@.contains(name@) {
                let j = choose|j: int| 0 <= j < views(self.names@).len() && views(self.names@)[j] == name@;
                assert(self.names@[j]@ == name@);
            }
        }
        false
    }

    /// Add `name`; returns whether it was not there before.
    pub fn insert(&mut self, name: String) -> (r: bool)
        requires
            old(self).wf(),
        ensures
            final(self).wf(),
            final(self)@ == old(self)@.insert(name@),
            r == !old(self)@.contains(name@),
    {
        if self.contains(&name) {
            proof {
                assert(self@.insert(name@) =~= self@);
            }
            false
        } else {
            let ghost old_v = views(self.names@);
            let ghost n = name@;
            self.names.push(name);
            proof {
                assert(views(self.names@) =~= old_v.push(n));
                assert(!old_v.contains(n));
                assert(self@ =~= old_v.to_set().insert(n));
            }
            true
        }
    }

    pub fn len(&self) -> (r: usize)
        requires
            self.wf(),
        ensures
            r == self@.len(),
            self@.finite(),
    {
        proof {
            views(self.names@).unique_seq_to_set();
        }
        self.names.len()
    }
}

/// The broadcast state as plain values.
pub struct NetworkView {
    pub peers: Set<Seq<char>>,
    pub pending: Set<(Protocol, Seq<char>)>,
    pub acks: Map<Protocol, Set<Seq<char>>>,
}

/// Replicas, the messages received and not yet delivered, and who acknowledged what.
pub struct Network {
    peers: NameSet,
    pending: Vec<(Protocol, String)>,
    acks: Vec<(Protocol, NameSet)>,
}

pub open spec fn pending_views(v: Seq<(Protocol, String)>) -> Seq<(Protocol, Seq<char>)> {
    v.map_values(|p: (Protocol, String)| (p.0, p.1@))
}

pub open spec fn ack_views(v: Seq<(Protocol, NameSet)>) -> Seq<(Protocol, Set<Seq<char>>)> {
    v.map_values(|p: (Protocol, NameSet)| (p.0, p.1@))
}

impl View for Network {
    type V = NetworkView;

    closed spec fn view(&self) -> NetworkView {
        NetworkView {
            peers: self.peers@,
            pending: pending_views(self.pending@).to_set(),
            acks: crate::cache::entries_map(ack_views(self.acks@)),
        }
    }
}

/// Number of acknowledgements of `m`.
pub open spec fn ack_count(n: NetworkView, m: Protocol) -> nat {
    if n.acks.contains_key(m) {
        n.acks[m].len()
    } else {
        0
    }
}

/// `m` may be delivered once more than half of the peers acknowledged it.
pub open spec fn spec_can_deliver(n: NetworkView, m: Protocol) -> bool {
    ack_count(n, m) > n.peers.len() / 2
}

/// The state after peer `peer` broadcast `m`: the peer's acknowledgement is
/// recorded, and the message is kept pending unless the acknowledgement was a
/// new one for a message already acknowledged by others.
pub open spec fn spec_receive(n: NetworkView, m: Protocol, peer: Seq<char>) -> NetworkView {
    let had = n.acks.contains_key(m);
    let acked = had && !n.acks[m].contains(peer);
    NetworkView {
        acks: n.acks.insert(
            m,
            if had {
                n.acks[m].insert(peer)
            } else {
                Set::empty().insert(peer)
            },
        ),
        pending: if acked {
            n.pending
        } else {
            n.pending.insert((m, peer))
        },
        ..n
    }
}

impl Network {
    pub closed spec fn wf(&self) -> bool {
        &&& self.peers.wf()
        &&& crate::cache::distinct_keys(ack_views(self.acks@))
        &&& forall|i: int| 0 <= i < self.acks@.len() ==> (#[trigger] self.acks@[i]).1.wf()
    }

    /// The broadcast state among the replicas named in `peers`.
    pub fn new(peers: Vec<String>) -> (n: Network)
        ensures
            n.wf(),
            n@.peers == views(peers@).to_set(),
            n@.pending == Set::<(Protocol, Seq<char>)>::empty(),
            n@.acks == Map::<Protocol, Set<Seq<char>>>::empty(),
    {
        let mut set = NameSet::new();
        let mut i: usize = 0;
        let mut peers = peers;
        let ghost all = views(peers@);
        while peers.len() > 0
            invariant
                set.wf(),
                all.len() >= peers@.len(),
                views(peers@) == all.subrange(all.len() - peers@.len(), all.len() as int),
                set@ == all.subrange(0, all.len() - peers@.len()).to_set(),
            decreases peers.len(),
        {
            let ghost before = peers@;
            let ghost k = all.len() - peers@.len();
            let name = peers.remove(0);
            proof {
                assert(views(before)[0] == name@);
                assert(all[k] == name@);
                assert(all.subrange(0, k + 1) =~= all.subrange(0, k).push(name@));
                assert(views(peers@) =~= views(before).subrange(1, before.len() as int));
            }
            let _ = set.insert(name);
            proof {
                assert(set@ =~= all.subrange(0, k + 1).to_set());
            }
        }
        proof {
            assert(all.subrange(0, all.len() as int) =~= all);
        }
        let n = Network { peers: set, pending: Vec::new(), acks: Vec::new() };
        proof {
            assert(pending_views(n.pending@) =~= Seq::empty());
            assert(n@.pending =~= Set::<(Protocol, Seq<char>)>::empty());
            assert(ack_views(n.acks@) =~= Seq::empty());
            assert(n@.acks =~= Map::<Protocol, Set<Seq<char>>>::empty());
        }
        n
    }

    fn ack_position(&self, m: Protocol) -> (r: Option<usize>)
        requires
            self.wf(),
        ensures
            match r {
                Some(p) => p < self.acks@.len() && self.acks@[p as int].0 == m,
                None => !crate::cache::has_key(ack_views(self.acks@), m),
            },
    {
        let mut i: usize = 0;
        while i < self.acks.len()
            invariant
                i <= self.acks.len(),
                forall|j: int| 0 <= j < i ==> self.acks@[j].0 != m,
            decreases self.acks.len() - i,
        {
            if self.acks[i].0 == m {
                return Some(i);
            }
            i = i + 1;
        }
        proof {
            if crate::cache::has_key(ack_views(self.acks@), m) {
                let j = choose|j: int| 0 <= j < ack_views(self.acks@).len() && (#[trigger] ack_views(self.acks@)[j]).0 == m;
                assert(self.acks@[j].0 == m);
            }
        }
        None
    }

    /// Whether `m` was acknowledged by more than half of the peers.
    pub fn can_deliver(&self, m: Protocol) -> (r: bool)
        requires
            self.wf(),
        ensures
            r == spec_can_deliver(self@, m),
    {
        let peers = self.peers.len();
        match self.ack_position(m) {
            Some(p) => {
                proof {
                    crate::cache::lemma_lookup_at(ack_views(self.acks@), p as int);
                }
                self.acks[p].1.len() > peers / 2
            },
            None => 0 > peers / 2,
        }
    }

    /// Record that peer `peer` broadcast `m`.
    pub fn receive(&mut self, m: Protocol, peer: String)
        requires
            old(self).wf(),
        ensures
            final(self).wf(),
            final(self)@ == spec_receive(old(self)@, m, peer@),
    {
        let ghost old_v = self@;
        let ghost old_e = ack_views(self.acks@);
        let ghost pv = peer@;
        let acked = match self.ack_position(m) {
            Some(p) => {
                proof {
                    crate::cache::lemma_lookup_at(old_e, p as int);
                }
                let mut pair = self.acks.remove(p);
                let added = pair.1.insert(peer.clone());
                let ghost new_set = pair.1@;
                self.acks.insert(p, pair);
                proof {
                    assert(ack_views(self.acks@) =~= old_e.update(p as int, (m, new_set)));
                    assert forall|q: Protocol| #[trigger] crate::cache::lookup(ack_views(self.acks@), q) == if old_v.acks.insert(m, new_set).contains_key(q) {
                        Some(old_v.acks.insert(m, new_set)[q])
                    } else {
                        None::<Set<Seq<char>>>
                    } by {
                        crate::cache::lemma_lookup_update(old_e, p as int, new_set, q);
                        crate::cache::lemma_lookup_map(old_e, q);
                    }
                    crate::cache::lemma_lookup_update(old_e, p as int, new_set, m);
                    crate::cache::lemma_entries_map_ext(ack_views(self.acks@), old_v.acks.insert(m, new_set));
                    assert forall|i: int| 0 <= i < self.acks@.len() implies (#[trigger] self.acks@[i]).1.wf() by {
                        if i != p {
                            assert(self.acks@[i] == old(self).acks@[i]);
                        }
                    }
                }
                added
            },
            None => {
                let mut set = NameSet::new();
                let _ = set.insert(peer.clone());
                let ghost new_set = set@;
                self.acks.push((m, set));
                proof {
                    assert(new_set =~= Set::<Seq<char>>::empty().insert(pv));
                    assert(ack_views(self.acks@) =~= old_e.push((m, new_set)));
                    assert forall|q: Protocol| #[trigger] crate::cache::lookup(ack_views(self.acks@), q) == if old_v.acks.insert(m, new_set).contains_key(q) {
                        Some(old_v.acks.insert(m, new_set)[q])
                    } else {
                        None::<Set<Seq<char>>>
                    } by {
                        crate::cache::lemma_lookup_push(old_e, m, new_set, q);
                        crate::cache::lemma_lookup_map(old_e, q);
                    }
                    crate::cache::lemma_lookup_push(old_e, m, new_set, m);
                    crate::cache::lemma_entries_map_ext(ack_views(self.acks@), old_v.acks.insert(m, new_set));
                    assert forall|i: int| 0 <= i < self.acks@.len() implies (#[trigger] self.acks@[i]).1.wf() by {
                        if i < old(self).acks@.len() {
                            assert(self.acks@[i] == old(self).acks@[i]);
                        }
                    }
                }
                false
            },
        };
        if !acked {
            self.add_pending(m, peer);
        }
    }

    fn add_pending(&mut self, m: Protocol, peer: String)
        requires
            old(self).wf(),
        ensures
            final(self).wf(),
            final(self)@ == (NetworkView { pending: old(self)@.pending.insert((m, peer@)), ..old(self)@ }),
    {
        let ghost old_p = pending_views(self.pending@);
        let mut i: usize = 0;
        while i < self.pending.len()
            invariant
                i <= self.pending.len(),
                forall|j: int| 0 <= j < i ==> (#[trigger] old_p[j]) != (m, peer@),
                old_p == pending_views(self.pending@),
                *self == *old(self),
                self.wf(),
            decreases self.pending.len() - i,
        {
            if self.pending[i].0 == m && self.pending[i].1 == peer {
                proof {
                    assert(old_p[i as int] == (m, peer@));
                    assert(old(self)@.pending.insert((m, peer@)) =~= old(self)@.pending);
                }
                return;
            }
            proof {
                assert(old_p[i as int] == (self.pending@[i as int].0, self.pending@[i as int].1@));
            }
            i = i + 1;
        }
        let ghost pv = peer@;
        self.pending.push((m, peer));
        proof {
            assert(pending_views(self.pending@) =~= old_p.push((m, pv)));
            assert(pending_views(self.pending@).to_set() =~= old_p.to_set().insert((m, pv)));
        }
    }
}

/// Acknowledgements only accumulate: after a peer's broadcast is recorded,
/// every message has at least the acknowledgements it had, so one that could
/// be delivered still can.
pub proof fn law_receive_keeps_deliverable(n: NetworkView, m: Protocol, peer: Seq<char>, q: Protocol)
    requires
        forall|p: Protocol| #[trigger] n.acks.contains_key(p) ==> n.acks[p].finite(),
    ensures
        n.acks.contains_key(q) ==> spec_receive(n, m, peer).acks.contains_key(q) && n.acks[q].subset_of(
            spec_receive(n, m, peer).acks[q],
        ),
        spec_can_deliver(n, q) ==> spec_can_deliver(spec_receive(n, m, peer), q),
        spec_receive(n, m, peer).acks[m].contains(peer),
{
    let t = spec_receive(n, m, peer);
    if n.acks.contains_key(q) {
        if q == m {
            vstd::set_lib::lemma_len_subset(n.acks[q], t.acks[q]);
        }
    }
}

/// A message may be delivered exactly when a strict majority of the peers
/// acknowledged it.
pub proof fn law_deliver_needs_majority(n: NetworkView, m: Protocol)
    ensures
        spec_can_deliver(n, m) <==> 2 * ack_count(n, m) > n.peers.len(),
{
}

} // verus!
