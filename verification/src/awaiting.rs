//! The table of RPCs that have been sent and await a response.

use vstd::prelude::*;

use crate::addr::PeerAddr;

verus! {

/// The key of a pending request: the address it went to and its request id.
pub type RequestKey = (PeerAddr, u16);

/// The request id after `rid`, wrapping from 0xffff to 0.
pub open spec fn next_id(rid: u16) -> u16 {
    if rid == 0xffff {
        0
    } else {
        (rid + 1) as u16
    }
}

/// The request id `k` places after `start`, in wrapping order.
pub open spec fn id_after(start: u16, k: int) -> u16 {
    ((start + k) % 0x10000) as u16
}

/// The request id that a search for a free id for `addr` returns, starting at
/// `rid` and trying at most `steps` further ids in wrapping order; `None` if
/// all of them are taken.
pub open spec fn search_free<S>(
    pending: Map<RequestKey, S>,
    addr: PeerAddr,
    rid: u16,
    steps: nat,
) -> Option<u16>
    decreases steps,
{
    if !pending.contains_key((addr, rid)) {
        Some(rid)
    } else if steps == 0 {
        None
    } else {
        search_free(pending, addr, next_id(rid), (steps - 1) as nat)
    }
}

/// Whether `rid` is the first request id free for `addr` at or after `start`,
/// in wrapping order.
pub open spec fn is_first_free_from<S>(
    pending: Map<RequestKey, S>,
    addr: PeerAddr,
    start: u16,
    rid: u16,
) -> bool {
    &&& !pending.contains_key((addr, rid))
    &&& exists|d: int|
        0 <= d < 0x10000 && rid == id_after(start, d) && forall|j: int|
            0 <= j < d ==> pending.contains_key((addr, #[trigger] id_after(start, j)))
}

proof fn lemma_id_after_next(start: u16, k: int)
    requires
        0 <= k,
    ensures
        id_after(next_id(start), k) == id_after(start, k + 1),
{
    if start == 0xffff {
        assert((0 + k) % 0x10000 == (0xffff + k + 1) % 0x10000) by {
            vstd::arithmetic::div_mod::lemma_mod_add_multiples_vanish(k, 0x10000);
        }
    }
}

/// What a search that finds an id found: the id `k` places after the start,
/// free, with every id before it taken.
proof fn lemma_search_found<S>(
    pending: Map<RequestKey, S>,
    addr: PeerAddr,
    start: u16,
    steps: nat,
) -> (k: int)
    requires
        search_free(pending, addr, start, steps) is Some,
    ensures
        0 <= k <= steps,
        search_free(pending, addr, start, steps) == Some(id_after(start, k)),
        !pending.contains_key((addr, id_after(start, k))),
        forall|j: int| 0 <= j < k ==> pending.contains_key((addr, #[trigger] id_after(start, j))),
    decreases steps,
{
    assert(id_after(start, 0) == start);
    if !pending.contains_key((addr, start)) {
        0
    } else {
        let k1 = lemma_search_found(pending, addr, next_id(start), (steps - 1) as nat);
        lemma_id_after_next(start, k1);
        assert forall|j: int| 0 <= j < k1 + 1 implies pending.contains_key(
            (addr, #[trigger] id_after(start, j)),
        ) by {
            if j > 0 {
                lemma_id_after_next(start, j - 1);
                assert(pending.contains_key((addr, id_after(next_id(start), j - 1))));
            }
        }
        k1 + 1
    }
}

/// A search that finds nothing saw every id it tried taken.
proof fn lemma_search_none<S>(pending: Map<RequestKey, S>, addr: PeerAddr, start: u16, steps: nat)
    requires
        search_free(pending, addr, start, steps) is None,
    ensures
        forall|j: int| 0 <= j <= steps ==> pending.contains_key((addr, #[trigger] id_after(start, j))),
    decreases steps,
{
    assert(id_after(start, 0) == start);
    if steps > 0 {
        lemma_search_none(pending, addr, next_id(start), (steps - 1) as nat);
        assert forall|j: int| 0 <= j <= steps implies pending.contains_key(
            (addr, #[trigger] id_after(start, j)),
        ) by {
            if j > 0 {
                lemma_id_after_next(start, j - 1);
                assert(pending.contains_key((addr, id_after(next_id(start), j - 1))));
            }
        }
    }
}

/// Every request id lies some places after any start, fewer than 0x10000.
proof fn lemma_id_reached(start: u16, rid: u16) -> (k: int)
    ensures
        0 <= k < 0x10000,
        id_after(start, k) == rid,
{
    if rid >= start {
        (rid - start) as int
    } else {
        (rid + 0x10000 - start) as int
    }
}

/// The first free id from a start is the nearest free one: it is free, and
/// every id that comes before it on the way up from the start, wrapping from
/// 0xffff to 0, is taken.
pub proof fn law_first_free_is_nearest<S>(
    pending: Map<RequestKey, S>,
    addr: PeerAddr,
    start: u16,
    rid: u16,
)
    requires
        is_first_free_from(pending, addr, start, rid),
    ensures
        !pending.contains_key((addr, rid)),
        forall|r: u16|
            (r - start + 0x10000) % 0x10000 < (rid - start + 0x10000) % 0x10000
                ==> pending.contains_key((addr, r)),
{
    let d = choose|d: int|
        0 <= d < 0x10000 && rid == id_after(start, d) && forall|j: int|
            0 <= j < d ==> pending.contains_key((addr, #[trigger] id_after(start, j)));
    assert((rid - start + 0x10000) % 0x10000 == d);
    assert forall|r: u16|
        (r - start + 0x10000) % 0x10000 < (rid - start + 0x10000) % 0x10000 implies pending.contains_key(
        (addr, r),
    ) by {
        let k = (r - start + 0x10000) % 0x10000;
        assert(id_after(start, k) == r);
    }
}

/// A request id that the search returns is free for the address: an id is
/// never handed out twice while its request is pending.
pub proof fn law_search_finds_free<S>(
    pending: Map<RequestKey, S>,
    addr: PeerAddr,
    rid: u16,
    steps: nat,
)
    requires
        search_free(pending, addr, rid, steps) is Some,
    ensures
        !pending.contains_key((addr, search_free(pending, addr, rid, steps)->Some_0)),
{
    let _ = lemma_search_found(pending, addr, rid, steps);
}

/// The search over all 0x10000 request ids finds one exactly when some id is
/// free for the address, and what it finds is the first free id at or after
/// its start, in wrapping order.
pub proof fn law_search_complete<S>(pending: Map<RequestKey, S>, addr: PeerAddr, start: u16)
    ensures
        search_free(pending, addr, start, 0xffff) is Some <==> exists|r: u16|
            !pending.contains_key((addr, r)),
        search_free(pending, addr, start, 0xffff) matches Some(rid) ==> is_first_free_from(
            pending,
            addr,
            start,
            rid,
        ),
{
    match search_free(pending, addr, start, 0xffff) {
        Some(rid) => {
            let k = lemma_search_found(pending, addr, start, 0xffff);
            assert(!pending.contains_key((addr, id_after(start, k))));
        },
        None => {
            lemma_search_none(pending, addr, start, 0xffff);
            assert forall|r: u16| pending.contains_key((addr, r)) by {
                let k = lemma_id_reached(start, r);
                assert(pending.contains_key((addr, id_after(start, k))));
            }
        },
    }
}

/// Popping the request id that `put` handed out gives back the sender that
/// it recorded, and leaves the table's pending requests as they were before.
pub proof fn law_pop_after_put<S>(
    before: AwaitingRequestMap<S>,
    after_put: AwaitingRequestMap<S>,
    after_pop: AwaitingRequestMap<S>,
    addr: PeerAddr,
    sender: S,
    rid: u16,
    popped: Option<S>,
)
    requires
        !before.pending().contains_key((addr, rid)),
        after_put.pending() == before.pending().insert((addr, rid), sender),
        popped is Some <==> after_put.pending().contains_key((addr, rid)),
        popped matches Some(s) ==> s == after_put.pending()[(addr, rid)],
        after_pop.pending() == after_put.pending().remove((addr, rid)),
    ensures
        popped == Some(sender),
        after_pop.pending() == before.pending(),
{
    assert(after_pop.pending() =~= before.pending());
}

/// Two requests pending for the same address never share a request id: the
/// id `put` hands out differs from that of every request pending for the
/// address.
pub proof fn law_fresh_rid<S>(map: AwaitingRequestMap<S>, addr: PeerAddr, pending_rid: u16)
    requires
        map.pending().contains_key((addr, pending_rid)),
        map.spec_has_free_rid(addr),
    ensures
        map.spec_next_rid(addr) is Some,
        map.spec_next_rid(addr)->Some_0 != pending_rid,
{
    law_search_complete(map.pending(), addr, map.spec_current_rid());
}

/// A request that awaits its response.
struct Pending<S> {
    addr: PeerAddr,
    rid: u16,
    sender: S,
}

/// A table of the RPCs that have been sent and await a response.
///
/// A socket address and a request id together are the key of a sender through
/// which to pass a response on. The table also remembers the request id that
/// it last handed out, from which the search for the next one starts.
pub struct AwaitingRequestMap<S> {
    current_rid: u16,
    entries: Vec<Pending<S>>,
}

impl<S> AwaitingRequestMap<S> {
    spec fn key_at(&self, i: int) -> RequestKey {
        (self.entries@[i].addr, self.entries@[i].rid)
    }

    spec fn has_key(&self, k: RequestKey) -> bool {
        exists|i: int| 0 <= i < self.entries@.len() && self.key_at(i) == k
    }

    /// The invariant of the table: no key occurs twice.
    pub closed spec fn wf(&self) -> bool {
        forall|i: int, j: int|
            0 <= i < self.entries@.len() && 0 <= j < self.entries@.len() && i != j
                ==> self.key_at(i) != self.key_at(j)
    }

    /// The request id from which the next search for a free one starts.
    pub closed spec fn spec_current_rid(&self) -> u16 {
        self.current_rid
    }

    /// The pending requests: each key with the sender of its response.
    pub closed spec fn pending(&self) -> Map<RequestKey, S> {
        Map::new(
            |k: RequestKey| self.has_key(k),
            |k: RequestKey|
                self.entries@[choose|i: int| 0 <= i < self.entries@.len() && self.key_at(i) == k].sender,
        )
    }

    /// Whether some request id is free for `addr`.
    pub open spec fn spec_has_free_rid(&self, addr: PeerAddr) -> bool {
        exists|r: u16| !self.pending().contains_key((addr, r))
    }

    /// The request id that `put` hands out for `addr`: the first one free at or
    /// after the last id handed out, in wrapping order; `None` where all
    /// 0x10000 ids are taken for `addr`.
    pub open spec fn spec_next_rid(&self, addr: PeerAddr) -> Option<u16> {
        search_free(self.pending(), addr, self.spec_current_rid(), 0xffff)
    }

    proof fn lemma_entry(&self, i: int)
        requires
            self.wf(),
            0 <= i < self.entries@.len(),
        ensures
            self.pending().contains_key(self.key_at(i)),
            self.pending()[self.key_at(i)] == self.entries@[i].sender,
    {
        let k = self.key_at(i);
        assert(self.has_key(k));
        let j = choose|j: int| 0 <= j < self.entries@.len() && self.key_at(j) == k;
        assert(j == i);
    }

    /// Creates an empty table.
    pub fn new() -> (m: Self)
        ensures
            m.wf(),
            m.pending() == Map::<RequestKey, S>::empty(),
            m.spec_current_rid() == 0,
    {
        let m = AwaitingRequestMap { current_rid: 0, entries: Vec::new() };
        assert(m.pending() =~= Map::<RequestKey, S>::empty());
        m
    }

    /// Finds the position of the entry with the given key.
    fn find(&self, addr: PeerAddr, rid: u16) -> (r: Option<usize>)
        requires
            self.wf(),
        ensures
            r is None <==> !self.pending().contains_key((addr, rid)),
            r matches Some(i) ==> i < self.entries@.len() && self.key_at(i as int) == (addr, rid),
    {
        let n = self.entries.len();
        let mut i: usize = 0;
        while i < n
            invariant
                n == self.entries@.len(),
                i <= n,
                forall|j: int| 0 <= j < i ==> self.key_at(j) != (addr, rid),
            decreases n - i,
        {
            let e = &self.entries[i];
            if e.addr == addr && e.rid == rid {
                assert(self.key_at(i as int) == (addr, rid));
                assert(self.has_key((addr, rid)));
                return Some(i);
            }
            i = i + 1;
        }
        None
    }
    /// Puts a record in the table of the socket address the request was sent
    /// to and the channel through which to send a possible response.
    ///
    /// Returns the next available request id: the first one free for `addr`
    /// at or after the last id handed out, in wrapping order. Where all 0x10000
    /// ids are taken for `addr` no id is available; `requires` leaves that case
    /// out.
    pub fn put(&mut self, addr: PeerAddr, sender: S) -> (rid: u16)
        requires
            old(self).wf(),
            old(self).spec_has_free_rid(addr),
        ensures
            final(self).wf(),
            is_first_free_from(old(self).pending(), addr, old(self).spec_current_rid(), rid),
            old(self).spec_next_rid(addr) == Some(rid),
            final(self).pending() == old(self).pending().insert((addr, rid), sender),
            final(self).spec_current_rid() == rid,
    {
        proof {
            law_search_complete(self.pending(), addr, self.current_rid);
        }
        let ghost target = self.spec_next_rid(addr)->Some_0;
        let mut rid = self.current_rid;
        let ghost mut steps: nat = 0xffff;
        while self.find(addr, rid).is_some()
            invariant
                self.wf(),
                search_free(self.pending(), addr, rid, steps) == Some(target),
            decreases steps,
        {
            rid = rid.wrapping_add(1);
            proof {
                steps = (steps - 1) as nat;
            }
        }
        let ghost before = *self;
        let ghost key = (addr, rid);
        self.current_rid = rid;
        self.entries.push(Pending { addr, rid, sender });
        proof {
            let n = before.entries@.len() as int;
            assert(self.key_at(n) == key);
            assert forall|j: int| 0 <= j < n implies self.key_at(j) == before.key_at(j) && #[trigger] self.entries@[j] == before.entries@[j] by {}
            assert forall|j: int| 0 <= j < n implies before.key_at(j) != key by {
                if before.key_at(j) == key {
                    assert(before.has_key(key));
                }
            }
            let expected = before.pending().insert(key, sender);
            assert forall|k: RequestKey| #[trigger] self.pending().contains_key(k) <==> expected.contains_key(k) by {
                if self.has_key(k) {
                    let j = choose|j: int| 0 <= j < self.entries@.len() && self.key_at(j) == k;
                    if j < n {
                        assert(before.key_at(j) == k);
                        assert(before.has_key(k));
                    }
                }
                if before.has_key(k) {
                    let j = choose|j: int| 0 <= j < before.entries@.len() && before.key_at(j) == k;
                    assert(self.key_at(j) == k);
                }
                if k == key {
                    assert(self.key_at(n) == k);
                }
            }
            assert forall|k: RequestKey| self.pending().contains_key(k) implies #[trigger] self.pending()[k] == expected[k] by {
                if k == key {
                    self.lemma_entry(n);
                } else {
                    let j = choose|j: int| 0 <= j < before.entries@.len() && before.key_at(j) == k;
                    assert(before.has_key(k));
                    before.lemma_entry(j);
                    self.lemma_entry(j);
                }
            }
            assert(self.pending() =~= expected);
        }
        rid
    }

    /// Pops a record from the table, allowing the response to be sent through
    /// the returned channel.
    ///
    /// If there is no such record, then `None` is returned.
    pub fn pop(&mut self, addr: PeerAddr, rid: u16) -> (r: Option<S>)
        requires
            old(self).wf(),
        ensures
            final(self).wf(),
            r is Some <==> old(self).pending().contains_key((addr, rid)),
            r matches Some(s) ==> s == old(self).pending()[(addr, rid)],
            final(self).pending() == old(self).pending().remove((addr, rid)),
            final(self).spec_current_rid() == old(self).spec_current_rid(),
    {
        match self.find(addr, rid) {
            None => {
                proof {
                    assert(self.pending() =~= self.pending().remove((addr, rid)));
                }
                None
            },
            Some(i) => {
                let ghost before = *self;
                let ghost key = (addr, rid);
                proof {
                    before.lemma_entry(i as int);
                }
                let e = self.entries.remove(i);
                proof {
                    let n = before.entries@.len() as int;
                    let ii = i as int;
                    assert forall|j: int| 0 <= j < n - 1 implies #[trigger] self.key_at(j) == before.key_at(
                        if j < ii { j } else { j + 1 },
                    ) by {}
                    assert forall|j: int, l: int|
                        0 <= j < self.entries@.len() && 0 <= l < self.entries@.len() && j != l
                            implies self.key_at(j) != self.key_at(l) by {
                        let jj = if j < ii { j } else { j + 1 };
                        let ll = if l < ii { l } else { l + 1 };
                        assert(self.key_at(j) == before.key_at(jj));
                        assert(self.key_at(l) == before.key_at(ll));
                    }
                    let expected = before.pending().remove(key);
                    assert forall|k: RequestKey| #[trigger] self.pending().contains_key(k) <==> expected.contains_key(k) by {
                        if self.has_key(k) {
                            let j = choose|j: int| 0 <= j < self.entries@.len() && self.key_at(j) == k;
                            let jj = if j < ii { j } else { j + 1 };
                            assert(before.key_at(jj) == k);
                            assert(before.has_key(k));
                            assert(jj != ii);
                        }
                        if before.has_key(k) && k != key {
                            let j = choose|j: int| 0 <= j < before.entries@.len() && before.key_at(j) == k;
                            assert(j != ii);
                            let jn = if j < ii { j } else { j - 1 };
                            assert(self.key_at(jn) == k);
                        }
                    }
                    assert forall|k: RequestKey| self.pending().contains_key(k) implies #[trigger] self.pending()[k] == expected[k] by {
                        let j = choose|j: int| 0 <= j < self.entries@.len() && self.key_at(j) == k;
                        let jj = if j < ii { j } else { j + 1 };
                        assert(before.key_at(jj) == k);
                        self.lemma_entry(j);
                        before.lemma_entry(jj);
                    }
                    assert(self.pending() =~= expected);
                }
                Some(e.sender)
            },
        }
    }
    /// Whether some request id is free for `addr`, that is, whether `put`
    /// finds one.
    pub fn has_free_rid(&self, addr: PeerAddr) -> (b: bool)
        requires
            self.wf(),
        ensures
            b == self.spec_has_free_rid(addr),
            b == self.spec_next_rid(addr) is Some,
    {
        proof {
            law_search_complete(self.pending(), addr, self.current_rid);
        }
        let mut rid = self.current_rid;
        let mut steps: u32 = 0xffff;
        loop
            invariant
                self.wf(),
                steps <= 0xffff,
                self.spec_has_free_rid(addr) == (self.spec_next_rid(addr) is Some),
                search_free(self.pending(), addr, rid, steps as nat) == self.spec_next_rid(addr),
            decreases steps,
        {
            if self.find(addr, rid).is_none() {
                return true;
            }
            if steps == 0 {
                return false;
            }
            rid = rid.wrapping_add(1);
            steps = steps - 1;
        }
    }
}

impl<S> Default for AwaitingRequestMap<S> {
    fn default() -> (m: Self)
        ensures
            m.wf(),
            m.pending() == Map::<RequestKey, S>::empty(),
            m.spec_current_rid() == 0,
    {
        Self::new()
    }
}

} // verus!
