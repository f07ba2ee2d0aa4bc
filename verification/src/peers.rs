//! Which transport owns each connected peer, how an outbound message finds its
//! transports, and the table of requests that still wait for a reply.

use std::collections::HashMap;
use vstd::prelude::*;
use vstd::std_specs::iter::IteratorSpec;

verus! {

/// A Bluetooth (or network-peer) address: six octets, held as one 48-bit number.
#[derive(Clone, Copy, Debug, PartialEq, Eq, Structural)]
pub struct Address {
    pub raw: u64,
}

/// The 48-bit number that six octets spell, most significant octet first.
pub open spec fn octets_value(o: Seq<u8>) -> int
    recommends
        o.len() == 6,
{
    ((((o[0] as int * 256 + o[1] as int) * 256 + o[2] as int) * 256 + o[3] as int) * 256
        + o[4] as int) * 256 + o[5] as int
}

impl Address {
    /// Builds an address from its six octets, most significant first.
    pub fn new(octets: [u8; 6]) -> (a: Address)
        ensures
            a.raw == octets_value(octets@),
    {
        let mut v: u64 = 0;
        let mut i: usize = 0;
        while i < 6
            invariant
                0 <= i <= 6,
                octets@.len() == 6,
                v == partial_value(octets@, i as int),
                v < pow256(i as nat),
            decreases 6 - i,
        {
            proof {
                lemma_pow256_step(i as nat);
            }
            assert(v * 256 + octets@[i as int] < pow256((i + 1) as nat)) by (nonlinear_arith)
                requires
                    v < pow256(i as nat),
                    pow256((i + 1) as nat) == pow256(i as nat) * 256,
                    octets@[i as int] < 256,
            ;
            v = v * 256 + octets[i] as u64;
            i = i + 1;
        }
        assert(partial_value(octets@, 6) == octets_value(octets@)) by {
            reveal_with_fuel(partial_value, 7);
        }
        Address { raw: v }
    }
}

/// The number spelled by the first `n` octets.
pub open spec fn partial_value(o: Seq<u8>, n: int) -> int
    decreases n,
{
    if n <= 0 {
        0
    } else {
        partial_value(o, n - 1) * 256 + o[n - 1] as int
    }
}

pub open spec fn pow256(n: nat) -> int
    decreases n,
{
    if n == 0 {
        1
    } else {
        256 * pow256((n - 1) as nat)
    }
}

proof fn lemma_pow256_step(n: nat)
    requires
        n < 6,
    ensures
        pow256(n + 1) == pow256(n) * 256,
        pow256(n + 1) <= 0x1_0000_0000_0000,
{
    reveal_with_fuel(pow256, 7);
}

} // verus!

verus! {

/// The three transports a peer can reach the daemon over.
#[derive(Clone, Copy, Debug, PartialEq, Eq, Hash, Structural)]
pub enum GatewayType {
    Rfcomm,
    Iap2Ea,
    Network,
}

/// Which transport owns each connected peer address, keyed by the address's
/// 48-bit number. The first transport to register an address keeps it until
/// that same transport unregisters it.
#[derive(Clone, Debug)]
pub struct PeerOwners {
    by_addr: HashMap<u64, GatewayType>,
}

impl PeerOwners {
    /// Each owned address and its transport.
    pub closed spec fn view(&self) -> Map<Address, GatewayType> {
        Map::new(|a: Address| self.by_addr@.contains_key(a.raw), |a: Address| self.by_addr@[a.raw])
    }

    pub fn new() -> (o: PeerOwners)
        ensures
            o.view() =~= Map::<Address, GatewayType>::empty(),
    {
        PeerOwners { by_addr: HashMap::new() }
    }

    /// Records that `kind` owns `addr`, unless some transport already owns it:
    /// then the prior owner is kept.
    pub fn register(&mut self, addr: Address, kind: GatewayType)
        ensures
            final(self).view() == if old(self).view().contains_key(addr) {
                old(self).view()
            } else {
                old(self).view().insert(addr, kind)
            },
    {
        if !self.by_addr.contains_key(&addr.raw) {
            self.by_addr.insert(addr.raw, kind);
            proof {
                assert forall|a: Address| #[trigger] self.view().contains_key(a) == old(self).view().insert(
                    addr,
                    kind,
                ).contains_key(a) by {
                    if a.raw == addr.raw {
                        assert(a == addr);
                    }
                }
                assert(self.view() =~= old(self).view().insert(addr, kind));
            }
        }
    }

    /// Drops `addr` when `kind` is the transport that owns it. Returns
    /// `Some(no_peers_left)` when the address was dropped, and `None` (leaving
    /// the table as it was) when `kind` did not own it.
    pub fn unregister(&mut self, addr: Address, kind: GatewayType) -> (dropped: Option<bool>)
        ensures
            old(self).view().contains_key(addr) && old(self).view()[addr] == kind ==> {
                &&& final(self).view() == old(self).view().remove(addr)
                &&& dropped == Some(final(self).view().dom().is_empty())
            },
            !(old(self).view().contains_key(addr) && old(self).view()[addr] == kind) ==> {
                &&& final(self).view() == old(self).view()
                &&& dropped is None
            },
    {
        let owned = match self.by_addr.get(&addr.raw) {
            Some(k) => *k == kind,
            None => false,
        };
        if !owned {
            return None;
        }
        self.by_addr.remove(&addr.raw);
        let empty = self.by_addr.is_empty();
        proof {
            assert forall|a: Address| #[trigger] self.view().contains_key(a) == old(self).view().remove(
                addr,
            ).contains_key(a) by {
                if a.raw == addr.raw {
                    assert(a == addr);
                }
            }
            assert(self.view() =~= old(self).view().remove(addr));
            if !empty {
                let r = choose|r: u64| self.by_addr@.contains_key(r);
                assert(self.view().dom().contains(Address { raw: r }));
            } else {
                assert(self.view().dom() =~= Set::<Address>::empty());
            }
        }
        Some(empty)
    }

    /// The transport that owns `addr`, if any.
    pub fn owner(&self, addr: &Address) -> (r: Option<GatewayType>)
        ensures
            r == if self.view().contains_key(*addr) {
                Some(self.view()[*addr])
            } else {
                None::<GatewayType>
            },
    {
        match self.by_addr.get(&addr.raw) {
            Some(k) => Some(*k),
            None => None,
        }
    }

    /// Every owned address, once each.
    pub fn addresses(&self) -> (r: Vec<Address>)
        ensures
            r@.no_duplicates(),
            r@.to_set() =~= self.view().dom(),
    {
        let mut out: Vec<Address> = Vec::new();
        let ghost keys: Seq<u64> = self.by_addr.keys().remaining().unref();
        for k in it: self.by_addr.keys()
            invariant
                it.seq().unref() == keys,
                out@.len() == it.index(),
                forall|j: int| 0 <= j < it.index() ==> #[trigger] out@[j].raw == keys[j],
        {
            out.push(Address { raw: *k });
        }
        proof {
            assert(keys.to_set() == self.by_addr@.dom());
            assert(keys.no_duplicates());
            assert(out@.len() == keys.len());
            assert forall|i: int, j: int| 0 <= i < out@.len() && 0 <= j < out@.len() && i != j implies out@[i]
                != out@[j] by {
                assert(out@[i].raw == keys[i]);
                assert(out@[j].raw == keys[j]);
            }
            assert forall|a: Address| #[trigger] out@.to_set().contains(a) == self.view().dom().contains(a) by {
                if out@.to_set().contains(a) {
                    let j = choose|j: int| 0 <= j < out@.len() && out@[j] == a;
                    assert(keys[j] == a.raw);
                    assert(keys.to_set().contains(a.raw));
                }
                if self.view().dom().contains(a) {
                    assert(keys.to_set().contains(a.raw));
                    let j = choose|j: int| 0 <= j < keys.len() && keys[j] == a.raw;
                    assert(out@[j].raw == a.raw);
                    assert(out@[j] == a);
                }
            }
        }
        out
    }

    /// Whether some owned address belongs to `kind`.
    pub fn has_kind(&self, kind: GatewayType) -> (r: bool)
        ensures
            r == self.view().values().contains(kind),
    {
        let mut found = false;
        let ghost vals: Seq<GatewayType> = self.by_addr.values().remaining().unref();
        for k in it: self.by_addr.values()
            invariant
                it.seq().unref() == vals,
                0 <= it.index() <= vals.len(),
                found == exists|j: int| 0 <= j < it.index() && vals[j] == kind,
        {
            if *k == kind {
                found = true;
            }
        }
        proof {
            assert(vals.to_set() == self.by_addr@.values());
            if found {
                let j = choose|j: int| 0 <= j < vals.len() && vals[j] == kind;
                assert(vals.to_set().contains(kind));
                let r = choose|r: u64| self.by_addr@.contains_key(r) && self.by_addr@[r] == kind;
                assert(self.view().contains_key(Address { raw: r }));
                assert(self.view()[Address { raw: r }] == kind);
            }
            if self.view().values().contains(kind) {
                let a = choose|a: Address| #[trigger] self.view().contains_key(a) && self.view()[a] == kind;
                assert(self.by_addr@.contains_key(a.raw));
                assert(self.by_addr@.values().contains(kind));
                assert(vals.to_set().contains(kind));
                let j = choose|j: int| 0 <= j < vals.len() && vals[j] == kind;
                assert(vals[j] == kind);
            }
        }
        found
    }
    /// The transports that own at least one address, each once, in the fixed
    /// order Rfcomm, Iap2Ea, Network.
    pub fn active_kinds(&self) -> (r: Vec<GatewayType>)
        ensures
            r@ == canonical_kinds().filter(|k: GatewayType| self.view().values().contains(k)),
    {
        let mut out: Vec<GatewayType> = Vec::new();
        if self.has_kind(GatewayType::Rfcomm) {
            out.push(GatewayType::Rfcomm);
        }
        if self.has_kind(GatewayType::Iap2Ea) {
            out.push(GatewayType::Iap2Ea);
        }
        if self.has_kind(GatewayType::Network) {
            out.push(GatewayType::Network);
        }
        proof {
            reveal_with_fuel(Seq::filter, 4);
            assert(canonical_kinds().drop_last().drop_last().drop_last() =~= Seq::<GatewayType>::empty());
            assert(canonical_kinds().drop_last().drop_last() =~= seq![GatewayType::Rfcomm]);
            assert(canonical_kinds().drop_last() =~= seq![GatewayType::Rfcomm, GatewayType::Iap2Ea]);
        }
        out
    }
}

/// The transports in the order a broadcast visits them.
pub open spec fn canonical_kinds() -> Seq<GatewayType> {
    seq![GatewayType::Rfcomm, GatewayType::Iap2Ea, GatewayType::Network]
}

/// The transports an outbound message goes to: for an addressed message the
/// one transport that owns the address (none if no transport owns it); for a
/// broadcast every transport that owns some address, in the fixed order.
pub open spec fn spec_targets(owners: Map<Address, GatewayType>, address: Option<Address>) -> Seq<
    GatewayType,
> {
    match address {
        Some(a) => if owners.contains_key(a) {
            seq![owners[a]]
        } else {
            Seq::empty()
        },
        None => canonical_kinds().filter(|k: GatewayType| owners.values().contains(k)),
    }
}

/// Resolves the transports an outbound message is written to.
pub fn resolve_targets(peer_owners: &PeerOwners, address: Option<Address>) -> (r: Vec<GatewayType>)
    ensures
        r@ == spec_targets(peer_owners.view(), address),
{
    match address {
        Some(addr) => match peer_owners.owner(&addr) {
            Some(kind) => {
                let mut v = Vec::new();
                v.push(kind);
                v
            },
            None => Vec::new(),
        },
        None => peer_owners.active_kinds(),
    }
}

} // verus!

verus! {

/// A request that waits for its reply: the peer it went to (none for a
/// broadcast request) and what the reply is handed to.
pub struct Pending<T> {
    pub id: u128,
    pub target: Option<Address>,
    pub reply: T,
}

/// The requests that still wait for a reply, keyed by request id.
pub struct PendingRequests<T> {
    entries: Vec<Pending<T>>,
}

pub open spec fn unique_ids<T>(s: Seq<Pending<T>>) -> bool {
    forall|i: int, j: int| 0 <= i < s.len() && 0 <= j < s.len() && i != j ==> s[i].id != s[j].id
}

/// Whether a waiting request is failed when `addr` goes away: an addressed
/// request when it went to `addr`, a broadcast request when no peer is left.
pub open spec fn dropped_on_disconnect(target: Option<Address>, addr: Address, no_peers_left: bool) -> bool {
    match target {
        Some(t) => t == addr,
        None => no_peers_left,
    }
}

/// Whether a waiting request is kept when `addr` goes away.
pub open spec fn kept_on_disconnect<T>(addr: Address, no_peers_left: bool) -> spec_fn(Pending<T>) -> bool {
    |p: Pending<T>| !dropped_on_disconnect(p.target, addr, no_peers_left)
}

/// Whether a waiting request is failed when `addr` goes away.
pub open spec fn failed_on_disconnect<T>(addr: Address, no_peers_left: bool) -> spec_fn(Pending<T>) -> bool {
    |p: Pending<T>| dropped_on_disconnect(p.target, addr, no_peers_left)
}

/// The reply handle of a waiting request.
pub open spec fn reply_of<T>() -> spec_fn(Pending<T>) -> T {
    |p: Pending<T>| p.reply
}

impl<T> PendingRequests<T> {
    /// The waiting requests, in the order they were sent.
    pub closed spec fn queue(&self) -> Seq<Pending<T>> {
        self.entries@
    }

    /// No request id waits twice.
    pub open spec fn wf(&self) -> bool {
        unique_ids(self.queue())
    }

    /// The target of each waiting request.
    pub closed spec fn view(&self) -> Map<u128, Option<Address>> {
        Map::new(
            |id: u128| exists|i: int| 0 <= i < self.entries@.len() && self.entries@[i].id == id,
            |id: u128|
                self.entries@[choose|i: int|
                    0 <= i < self.entries@.len() && self.entries@[i].id == id].target,
        )
    }

    proof fn lemma_at(&self, i: int)
        requires
            self.wf(),
            0 <= i < self.entries@.len(),
        ensures
            self.view().contains_key(self.entries@[i].id),
            self.view()[self.entries@[i].id] == self.entries@[i].target,
    {
        let id = self.entries@[i].id;
        assert(exists|k: int| 0 <= k < self.entries@.len() && self.entries@[k].id == id);
        let k = choose|k: int| 0 <= k < self.entries@.len() && self.entries@[k].id == id;
        assert(k == i);
    }

    pub fn new() -> (p: PendingRequests<T>)
        ensures
            p.wf(),
            p.view() =~= Map::<u128, Option<Address>>::empty(),
            p.queue() == Seq::<Pending<T>>::empty(),
    {
        PendingRequests { entries: Vec::new() }
    }

    fn find(&self, id: u128) -> (r: Option<usize>)
        requires
            self.wf(),
        ensures
            match r {
                Some(i) => i < self.entries@.len() && self.entries@[i as int].id == id,
                None => !self.view().contains_key(id),
            },
    {
        let mut i: usize = 0;
        while i < self.entries.len()
            invariant
                0 <= i <= self.entries@.len(),
                forall|k: int| 0 <= k < i ==> self.entries@[k].id != id,
            decreases self.entries@.len() - i,
        {
            if self.entries[i].id == id {
                return Some(i);
            }
            i = i + 1;
        }
        None
    }

    /// Removes the entry at `i`; the view loses that id and keeps the rest.
    fn take_at(&mut self, i: usize) -> (p: Pending<T>)
        requires
            old(self).wf(),
            i < old(self).entries@.len(),
        ensures
            final(self).wf(),
            p == old(self).entries@[i as int],
            final(self).entries@ == old(self).entries@.remove(i as int),
            final(self).view() =~= old(self).view().remove(p.id),
    {
        let ghost s = self.entries@;
        proof {
            self.lemma_at(i as int);
        }
        let p = self.entries.remove(i);
        proof {
            let t = self.entries@;
            assert(t =~= s.remove(i as int));
            assert forall|a: int, b: int| 0 <= a < t.len() && 0 <= b < t.len() && a != b implies t[a].id
                != t[b].id by {
                let aa = if a < i { a } else { a + 1 };
                let bb = if b < i { b } else { b + 1 };
                assert(t[a] == s[aa]);
                assert(t[b] == s[bb]);
            }
            assert forall|id: u128| #[trigger] self.view().contains_key(id) == old(self).view().remove(
                p.id,
            ).contains_key(id) by {
                if self.view().contains_key(id) {
                    let k = choose|k: int| 0 <= k < t.len() && t[k].id == id;
                    let kk = if k < i { k } else { k + 1 };
                    assert(t[k] == s[kk]);
                    old(self).lemma_at(kk);
                }
                if old(self).view().contains_key(id) && id != p.id {
                    let k = choose|k: int| 0 <= k < s.len() && s[k].id == id;
                    let kk = if k < i { k } else { k - 1 };
                    assert(t[kk] == s[k]);
                }
            }
            assert forall|id: u128| #[trigger] self.view().contains_key(id) implies self.view()[id]
                == old(self).view()[id] by {
                let k = choose|k: int| 0 <= k < t.len() && t[k].id == id;
                self.lemma_at(k);
                let kk = if k < i { k } else { k + 1 };
                assert(t[k] == s[kk]);
                old(self).lemma_at(kk);
            }
        }
        p
    }

    /// Starts waiting for the reply to request `id`. A request already waiting
    /// under the same id is replaced, and its reply handle is handed back.
    pub fn insert(&mut self, id: u128, target: Option<Address>, reply: T) -> (replaced: Option<T>)
        requires
            old(self).wf(),
        ensures
            final(self).wf(),
            final(self).view() == old(self).view().insert(id, target),
            replaced is Some <==> old(self).view().contains_key(id),
            old(self).view().contains_key(id) ==> exists|k: int|
                0 <= k < old(self).queue().len() && old(self).queue()[k].id == id && replaced == Some(
                    old(self).queue()[k].reply,
                ) && final(self).queue() == old(self).queue().remove(k).push(
                    (Pending { id: id, target: target, reply: reply }),
                ),
            !old(self).view().contains_key(id) ==> final(self).queue() == old(self).queue().push(
                (Pending { id: id, target: target, reply: reply }),
            ),
    {
        let ghost q0 = self.entries@;
        let found = self.find(id);
        let ghost k0: int = match found {
            Some(i) => i as int,
            None => 0,
        };
        let replaced = match found {
            Some(i) => Some(self.take_at(i).reply),
            None => None,
        };
        let ghost s = self.entries@;
        self.entries.push(Pending { id, target, reply });
        proof {
            let t = self.entries@;
            assert forall|a: int, b: int| 0 <= a < t.len() && 0 <= b < t.len() && a != b implies t[a].id
                != t[b].id by {
                if a < s.len() && b < s.len() {
                    assert(t[a] == s[a] && t[b] == s[b]);
                } else if a == s.len() {
                    assert(t[b] == s[b]);
                    if s[b].id == id {
                        assert(exists|k: int| 0 <= k < s.len() && s[k].id == id);
                    }
                } else {
                    assert(t[a] == s[a]);
                    if s[a].id == id {
                        assert(exists|k: int| 0 <= k < s.len() && s[k].id == id);
                    }
                }
            }
            assert forall|x: u128| #[trigger] self.view().contains_key(x) == old(self).view().insert(
                id,
                target,
            ).contains_key(x) by {
                if x == id {
                    assert(t[s.len() as int].id == id);
                } else {
                    if old(self).view().contains_key(x) {
                        let k = choose|k: int| 0 <= k < s.len() && s[k].id == x;
                        assert(exists|k: int| 0 <= k < s.len() && s[k].id == x);
                        assert(t[k] == s[k]);
                    }
                    if self.view().contains_key(x) {
                        let k = choose|k: int| 0 <= k < t.len() && t[k].id == x;
                        assert(k < s.len());
                        assert(t[k] == s[k]);
                    }
                }
            }
            assert forall|x: u128| #[trigger] self.view().contains_key(x) implies self.view()[x]
                == old(self).view().insert(id, target)[x] by {
                let k = choose|k: int| 0 <= k < t.len() && t[k].id == x;
                self.lemma_at(k);
                if k < s.len() {
                    assert(t[k] == s[k]);
                    assert(exists|j: int| 0 <= j < s.len() && s[j].id == x);
                    let j = choose|j: int| 0 <= j < s.len() && s[j].id == x;
                    assert(j == k);
                }
            }
            if found is Some {
                old(self).lemma_at(k0);
                assert(q0[k0].id == id);
            } else {
                assert(s == q0);
            }
        }
        replaced
    }

    /// Hands back the reply handle of request `id` and stops waiting for it;
    /// `None` when no request waits under that id.
    pub fn complete(&mut self, id: u128) -> (r: Option<T>)
        requires
            old(self).wf(),
        ensures
            final(self).wf(),
            final(self).view() == old(self).view().remove(id),
            r is Some <==> old(self).view().contains_key(id),
            old(self).view().contains_key(id) ==> exists|k: int|
                0 <= k < old(self).queue().len() && old(self).queue()[k].id == id && r == Some(
                    old(self).queue()[k].reply,
                ) && final(self).queue() == old(self).queue().remove(k),
            !old(self).view().contains_key(id) ==> final(self).queue() == old(self).queue(),
    {
        match self.find(id) {
            Some(i) => {
                proof {
                    self.lemma_at(i as int);
                }
                let p = self.take_at(i);
                Some(p.reply)
            },
            None => {
                assert(self.view() =~= self.view().remove(id));
                None
            },
        }
    }

    /// Fails the requests that can no longer be answered once `addr` went away:
    /// those sent to `addr`, and the broadcast ones when `no_peers_left`.
    /// The reply handles of the failed requests are handed back.
    pub fn fail_on_disconnect(&mut self, addr: Address, no_peers_left: bool) -> (failed: Vec<T>)
        requires
            old(self).wf(),
        ensures
            final(self).wf(),
            final(self).view() =~= old(self).view().restrict(
                old(self).view().dom().filter(
                    |id: u128| !dropped_on_disconnect(old(self).view()[id], addr, no_peers_left),
                ),
            ),
            final(self).queue() == old(self).queue().filter(kept_on_disconnect(addr, no_peers_left)),
            failed@ == old(self).queue().filter(failed_on_disconnect(addr, no_peers_left)).map_values(
                reply_of(),
            ),
    {
        let mut failed: Vec<T> = Vec::new();
        let mut i: usize = 0;
        let ghost orig = old(self).view();
        let ghost q = old(self).entries@;
        let ghost keep = kept_on_disconnect::<T>(addr, no_peers_left);
        let ghost drop = failed_on_disconnect::<T>(addr, no_peers_left);
        let ghost mut j: int = 0;
        assert(q.subrange(0, 0).filter(keep) =~= Seq::<Pending<T>>::empty());
        assert(q.subrange(0, 0).filter(drop) =~= Seq::<Pending<T>>::empty());
        assert(self.entries@ =~= q.subrange(0, 0).filter(keep) + q.subrange(0, q.len() as int));
        while i < self.entries.len()
            invariant
                self.wf(),
                0 <= i <= self.entries@.len(),
                0 <= j <= q.len(),
                keep == kept_on_disconnect::<T>(addr, no_peers_left),
                drop == failed_on_disconnect::<T>(addr, no_peers_left),
                self.entries@ == q.subrange(0, j).filter(keep) + q.subrange(j, q.len() as int),
                i == q.subrange(0, j).filter(keep).len(),
                failed@ == q.subrange(0, j).filter(drop).map_values(reply_of::<T>()),
                forall|k: int|
                    0 <= k < i ==> !dropped_on_disconnect(
                        #[trigger] self.entries@[k].target,
                        addr,
                        no_peers_left,
                    ),
                forall|id: u128| #[trigger]
                    self.view().contains_key(id) ==> orig.contains_key(id) && self.view()[id]
                        == orig[id],
                forall|id: u128| #[trigger]
                    orig.contains_key(id) && !dropped_on_disconnect(orig[id], addr, no_peers_left)
                        ==> self.view().contains_key(id),
            decreases self.entries@.len() - i,
        {
            let drop_it = match self.entries[i].target {
                Some(t) => t.raw == addr.raw,
                None => no_peers_left,
            };
            let ghost x = q[j];
            let ghost pre = q.subrange(0, j);
            proof {
                assert(self.entries@[i as int] == x);
                assert(q.subrange(0, j + 1) =~= pre.push(x));
                pre.lemma_filter_push(x, keep);
                pre.lemma_filter_push(x, drop);
                assert(drop_it == drop(x));
                assert(drop_it == !keep(x));
            }
            if drop_it {
                let ghost before = self.view();
                let ghost before_self = *self;
                let ghost s = self.entries@;
                let p = self.take_at(i);
                proof {
                    let t = self.entries@;
                    assert forall|k: int| 0 <= k < i implies !dropped_on_disconnect(
                        #[trigger] t[k].target,
                        addr,
                        no_peers_left,
                    ) by {
                        assert(t[k] == s[k]);
                    }
                    assert forall|id: u128| #[trigger]
                        orig.contains_key(id) && !dropped_on_disconnect(
                            orig[id],
                            addr,
                            no_peers_left,
                        ) implies self.view().contains_key(id) by {
                        assert(before.contains_key(id));
                        if id == p.id {
                            assert(s[i as int] == p);
                            before_self.lemma_at(i as int);
                        }
                    }
                }
                failed.push(p.reply);
                proof {
                    assert(self.entries@ =~= pre.push(x).filter(keep) + q.subrange(j + 1, q.len() as int));
                    assert(failed@ =~= pre.push(x).filter(drop).map_values(reply_of::<T>()));
                    j = j + 1;
                }
            } else {
                proof {
                    assert(self.entries@ =~= pre.push(x).filter(keep) + q.subrange(j + 1, q.len() as int));
                    assert(failed@ =~= pre.push(x).filter(drop).map_values(reply_of::<T>()));
                    j = j + 1;
                }
                i = i + 1;
            }
        }
        proof {
            assert(j == q.len());
            assert(q.subrange(0, q.len() as int) =~= q);
            assert(self.entries@ =~= q.filter(keep));
        }
        proof {
            assert forall|id: u128| #[trigger] self.view().contains_key(id) implies !dropped_on_disconnect(
                orig[id],
                addr,
                no_peers_left,
            ) by {
                let k = choose|k: int| 0 <= k < self.entries@.len() && self.entries@[k].id == id;
                self.lemma_at(k);
            }
        }
        failed
    }
}

} // verus!

verus! {

/// The peers that are connected and the requests that wait on them, kept
/// together so that a peer going away fails exactly the requests it strands.
pub struct GatewayLinks<T> {
    pub owners: PeerOwners,
    pub pending: PendingRequests<T>,
}

impl<T> GatewayLinks<T> {
    pub open spec fn wf(&self) -> bool {
        self.pending.wf()
    }

    pub fn new() -> (g: GatewayLinks<T>)
        ensures
            g.wf(),
            g.owners.view() =~= Map::<Address, GatewayType>::empty(),
            g.pending.view() =~= Map::<u128, Option<Address>>::empty(),
    {
        GatewayLinks { owners: PeerOwners::new(), pending: PendingRequests::new() }
    }

    /// A transport reports that `addr` went away. When `kind` owned the
    /// address, the address is dropped and the requests that it strands are
    /// failed (their reply handles come back); otherwise nothing changes.
    pub fn disconnect(&mut self, addr: Address, kind: GatewayType) -> (failed: Vec<T>)
        requires
            old(self).wf(),
        ensures
            final(self).wf(),
            old(self).owners.view().contains_key(addr) && old(self).owners.view()[addr] == kind ==> {
                &&& final(self).owners.view() == old(self).owners.view().remove(addr)
                &&& final(self).pending.view() =~= old(self).pending.view().restrict(
                    old(self).pending.view().dom().filter(
                        |id: u128|
                            !dropped_on_disconnect(
                                old(self).pending.view()[id],
                                addr,
                                final(self).owners.view().dom().is_empty(),
                            ),
                    ),
                )
                &&& failed@ == old(self).pending.queue().filter(
                    failed_on_disconnect(addr, final(self).owners.view().dom().is_empty()),
                ).map_values(reply_of())
            },
            !(old(self).owners.view().contains_key(addr) && old(self).owners.view()[addr] == kind)
                ==> {
                &&& final(self).owners.view() == old(self).owners.view()
                &&& final(self).pending.queue() == old(self).pending.queue()
                &&& failed@.len() == 0
            },
    {
        match self.owners.unregister(addr, kind) {
            Some(no_peers_left) => self.pending.fail_on_disconnect(addr, no_peers_left),
            None => Vec::new(),
        }
    }
}

/// After a peer goes away, no request still waits on it, and a broadcast
/// request survives exactly when some other peer is left to answer it.
pub proof fn law_disconnect_strands_no_request<T>(
    before: Map<u128, Option<Address>>,
    after: Map<u128, Option<Address>>,
    addr: Address,
    no_peers_left: bool,
)
    requires
        after =~= before.restrict(
            before.dom().filter(|id: u128| !dropped_on_disconnect(before[id], addr, no_peers_left)),
        ),
    ensures
        forall|id: u128| #[trigger] after.contains_key(id) ==> after[id] != Some(addr),
        forall|id: u128|
            #[trigger] before.contains_key(id) && before[id] is None ==> (after.contains_key(id)
                <==> !no_peers_left),
        forall|id: u128|
            #[trigger] before.contains_key(id) && before[id] is Some && before[id] != Some(addr)
                ==> after.contains_key(id),
{
}

/// What the daemon learns of a frame that it could not decode.
#[derive(Clone, Copy, Debug, PartialEq, Eq, Structural)]
pub struct EnvelopeProbe {
    pub is_request: bool,
    pub id: Option<u128>,
}

/// The reply that refuses a request the daemon could not decode: a response
/// to `request_id` that carries the "unsupported" error.
#[derive(Clone, Copy, Debug, PartialEq, Eq, Structural)]
pub struct UnsupportedReply {
    pub id: u128,
    pub request_id: u128,
}

/// `uuid::Uuid::now_v7`: a fresh time-ordered message id. What it holds
/// depends on the clock and on chance; only its version (7) is stated.
#[verifier::external_body]
fn new_message_id() -> (id: u128)
    ensures
        (id / 0x1_0000_0000_0000_0000_000) % 16 == 7,
{
    uuid::Uuid::now_v7().as_u128()
}

/// The refusal for an undecodable frame, sent under a fresh message id.
pub fn auto_nack_for_failed_decode(probe: &EnvelopeProbe) -> (r: Option<UnsupportedReply>)
    ensures
        probe.is_request && probe.id is Some ==> (r matches Some(reply) && reply.request_id == probe.id->0
            && reply.id != 0),
        !(probe.is_request && probe.id is Some) ==> r is None,
{
    if !(probe.is_request && probe.id.is_some()) {
        return None;
    }
    let id = new_message_id();
    nack_with_id(probe, id)
}

/// The refusal for an undecodable frame: a request with a readable id is
/// answered (under the message id `reply_id`) rather than dropped; anything
/// else gets no answer.
pub fn nack_with_id(probe: &EnvelopeProbe, reply_id: u128) -> (r: Option<UnsupportedReply>)
    ensures
        r == if probe.is_request && probe.id is Some {
            Some(UnsupportedReply { id: reply_id, request_id: probe.id->0 })
        } else {
            None::<UnsupportedReply>
        },
{
    if !probe.is_request {
        return None;
    }
    match probe.id {
        Some(request_id) => Some(UnsupportedReply { id: reply_id, request_id }),
        None => None,
    }
}


/// The longest wait between two attempts to bring the radio up, in
/// milliseconds.
pub const RETRY_DELAY_CAP_MS: u64 = 30000;

/// The first wait between attempts to bring the radio up, in milliseconds.
pub const RETRY_DELAY_START_MS: u64 = 250;

/// The wait after one more failed attempt: twice the last, up to the cap.
pub fn next_retry_delay_ms(delay_ms: u64) -> (d: u64)
    ensures
        d == if 2 * delay_ms <= RETRY_DELAY_CAP_MS {
            2 * delay_ms
        } else {
            RETRY_DELAY_CAP_MS as int
        },
{
    if delay_ms <= RETRY_DELAY_CAP_MS / 2 {
        delay_ms * 2
    } else {
        RETRY_DELAY_CAP_MS
    }
}

/// Whether the daemon drives a real radio or runs without one.
#[derive(Clone, Copy, Debug, PartialEq, Eq, Structural)]
pub enum BluetoothMode {
    Real,
    Headless,
}

} // verus!
