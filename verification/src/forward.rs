//! The client table of a UDP forwarder: for each client address, the socket
//! that talks to the destination on its behalf and when the client was last
//! heard from. Clients idle for too long are forgotten.

use vstd::prelude::*;

verus! {

/// One client of a UDP forwarder.
pub struct ClientEntry<H> {
    pub addr: String,
    pub socket: H,
    pub last_seen: u64,
}

/// The clients of a UDP forwarder, each address at most once.
///
/// The clients are kept in a `Vec`, keyed by the printed socket address, with
/// "no address twice" as the table's type invariant. A std `HashMap` is not
/// used: vstd states its operations only for key types that obey vstd's key
/// model, which vstd grants to the integer types, and a client's socket
/// address (an IPv6 address, port, flow label and scope: 208 bits) has no
/// encoding as one integer.
pub struct ClientTable<H> {
    entries: Vec<ClientEntry<H>>,
}

/// How long a client last heard from at `last` has been idle at `now`
/// (no time when the clock reads earlier than `last`).
pub open spec fn idle_time(last: u64, now: u64) -> int {
    if now >= last {
        now - last
    } else {
        0
    }
}

impl<H> View for ClientTable<H> {
    type V = Map<Seq<char>, (H, u64)>;

    /// Each client address with its socket and the time it was last heard from.
    closed spec fn view(&self) -> Map<Seq<char>, (H, u64)> {
        Map::new(
            |k: Seq<char>| exists|i: int| 0 <= i < self.entries@.len() && self.entries@[i].addr@ == k,
            |k: Seq<char>|
                {
                    let i = choose|i: int| 0 <= i < self.entries@.len() && self.entries@[i].addr@ == k;
                    (self.entries@[i].socket, self.entries@[i].last_seen)
                },
        )
    }
}

/// No address occurs twice among `es`.
pub closed spec fn addresses_distinct<H>(es: Seq<ClientEntry<H>>) -> bool {
    forall|i: int, j: int| 0 <= i < es.len() && 0 <= j < es.len() && i != j ==> es[i].addr@ != es[j].addr@
}

/// What `es` holds, as a map from address to socket and time.
closed spec fn entries_map<H>(es: Seq<ClientEntry<H>>) -> Map<Seq<char>, (H, u64)> {
    Map::new(
        |k: Seq<char>| exists|i: int| 0 <= i < es.len() && es[i].addr@ == k,
        |k: Seq<char>|
            {
                let i = choose|i: int| 0 <= i < es.len() && es[i].addr@ == k;
                (es[i].socket, es[i].last_seen)
            },
    )
}

/// With distinct addresses, each entry is found under its address.
proof fn lemma_entry_in_map<H>(es: Seq<ClientEntry<H>>, i: int)
    requires
        addresses_distinct(es),
        0 <= i < es.len(),
    ensures
        entries_map(es).dom().contains(es[i].addr@),
        entries_map(es)[es[i].addr@] == (es[i].socket, es[i].last_seen),
{
    let k = es[i].addr@;
    assert(exists|j: int| 0 <= j < es.len() && es[j].addr@ == k);
    let c = choose|j: int| 0 <= j < es.len() && es[j].addr@ == k;
    assert(c == i);
}

impl<H> ClientTable<H> {
    /// The table is well formed: no address occurs twice.
    #[verifier::type_invariant]
    spec fn wf(&self) -> bool {
        addresses_distinct(self.entries@)
    }

    proof fn lemma_view(&self)
        ensures
            self@ == entries_map(self.entries@),
    {
        assert(self@ =~= entries_map(self.entries@));
    }

    /// A table without clients.
    pub fn new() -> (r: Self)
        ensures
            r@ == Map::<Seq<char>, (H, u64)>::empty(),
    {
        let r = ClientTable { entries: Vec::new() };
        assert(r@ =~= Map::<Seq<char>, (H, u64)>::empty());
        r
    }

    /// The position of the client `addr`.
    fn position(&self, addr: &str) -> (r: Option<usize>)
        ensures
            match r {
                Some(i) => i < self.entries@.len() && self.entries@[i as int].addr@ == addr@,
                None => forall|i: int| 0 <= i < self.entries@.len() ==> self.entries@[i].addr@ != addr@,
            },
    {
        let mut i: usize = 0;
        while i < self.entries.len()
            invariant
                i <= self.entries@.len(),
                forall|j: int| 0 <= j < i ==> self.entries@[j].addr@ != addr@,
            decreases self.entries@.len() - i,
        {
            if self.entries[i].addr.as_str().eq(addr) {
                return Some(i);
            }
            i += 1;
        }
        None
    }

    /// The socket of the client `addr`, if it is known.
    pub fn socket(&self, addr: &str) -> (r: Option<&H>)
        ensures
            match r {
                Some(h) => self@.dom().contains(addr@) && *h == self@[addr@].0,
                None => !self@.dom().contains(addr@),
            },
    {
        proof {
            use_type_invariant(&*self);
            self.lemma_view();
        }
        match self.position(addr) {
            Some(i) => {
                proof {
                    lemma_entry_in_map(self.entries@, i as int);
                }
                Some(&self.entries[i].socket)
            },
            None => None,
        }
    }

    /// Notes that the client `addr` was heard from at `now`; tells whether it
    /// is known (an unknown client is not added).
    pub fn touch(&mut self, addr: &str, now: u64) -> (found: bool)
        ensures
            found == old(self)@.dom().contains(addr@),
            found ==> final(self)@ == old(self)@.insert(addr@, (old(self)@[addr@].0, now)),
            !found ==> final(self)@ == old(self)@,
    {
        proof {
            use_type_invariant(&*self);
            self.lemma_view();
        }
        match self.position(addr) {
            Some(i) => {
                let ghost es = self.entries@;
                proof {
                    lemma_entry_in_map(es, i as int);
                }
                let mut v: Vec<ClientEntry<H>> = Vec::new();
                std::mem::swap(&mut v, &mut self.entries);
                let mut e = v.remove(i);
                e.last_seen = now;
                v.insert(i, e);
                proof {
                    let fs = v@;
                    assert(fs =~= es.update(i as int, e));
                    assert(addresses_distinct(fs)) by {
                        assert forall|a: int, b: int| 0 <= a < fs.len() && 0 <= b < fs.len() && a != b implies fs[a].addr@
                            != fs[b].addr@ by {
                            assert(fs[a].addr@ == es[a].addr@ && fs[b].addr@ == es[b].addr@);
                        }
                    }
                }
                self.entries = v;
                proof {
                    let fs = self.entries@;
                    assert(fs =~= es.update(i as int, e));
                    self.lemma_view();
                    let m = old(self)@.insert(addr@, (old(self)@[addr@].0, now));
                    assert forall|k: Seq<char>| #[trigger] entries_map(fs).dom().contains(k) == m.dom().contains(k) by {
                        if entries_map(fs).dom().contains(k) {
                            let j = choose|j: int| 0 <= j < fs.len() && fs[j].addr@ == k;
                            assert(es[j].addr@ == k);
                        }
                        if old(self)@.dom().contains(k) {
                            let j = choose|j: int| 0 <= j < es.len() && es[j].addr@ == k;
                            assert(fs[j].addr@ == k);
                        }
                    }
                    assert forall|k: Seq<char>| m.dom().contains(k) implies entries_map(fs)[k] == m[k] by {
                        assert(entries_map(fs).dom().contains(k));
                        let j = choose|j: int| 0 <= j < fs.len() && fs[j].addr@ == k;
                        lemma_entry_in_map(fs, j);
                        lemma_entry_in_map(es, j);
                    }
                    assert(entries_map(fs) =~= m);
                }
                true
            },
            None => {
                assert(!old(self)@.dom().contains(addr@));
                false
            },
        }
    }

    /// Adds the client `addr`, heard from at `now`, with its socket.
    pub fn insert(&mut self, addr: String, socket: H, now: u64)
        requires
            !old(self)@.dom().contains(addr@),
        ensures
            final(self)@ == old(self)@.insert(addr@, (socket, now)),
    {
        proof {
            use_type_invariant(&*self);
            self.lemma_view();
        }
        let ghost es = self.entries@;
        let ghost k0 = addr@;
        let e = ClientEntry { addr, socket, last_seen: now };
        let mut v: Vec<ClientEntry<H>> = Vec::new();
        std::mem::swap(&mut v, &mut self.entries);
        v.push(e);
        proof {
            let fs = v@;
            assert forall|a: int| 0 <= a < es.len() implies es[a].addr@ != k0 by {
                if es[a].addr@ == k0 {
                    assert(entries_map(es).dom().contains(k0));
                }
            }
            assert(addresses_distinct(fs)) by {
                assert forall|a: int, b: int| 0 <= a < fs.len() && 0 <= b < fs.len() && a != b implies fs[a].addr@
                    != fs[b].addr@ by {
                    if a < es.len() && b < es.len() {
                        assert(fs[a] == es[a] && fs[b] == es[b]);
                    }
                }
            }
        }
        self.entries = v;
        proof {
            let fs = self.entries@;
            self.lemma_view();
            let m = old(self)@.insert(k0, (socket, now));
            assert forall|k: Seq<char>| #[trigger] entries_map(fs).dom().contains(k) == m.dom().contains(k) by {
                if entries_map(fs).dom().contains(k) && k != k0 {
                    let j = choose|j: int| 0 <= j < fs.len() && fs[j].addr@ == k;
                    assert(j < es.len());
                    assert(es[j].addr@ == k);
                }
                if old(self)@.dom().contains(k) {
                    let j = choose|j: int| 0 <= j < es.len() && es[j].addr@ == k;
                    assert(fs[j].addr@ == k);
                }
                if k == k0 {
                    assert(fs[es.len() as int].addr@ == k);
                }
            }
            assert forall|k: Seq<char>| m.dom().contains(k) implies entries_map(fs)[k] == m[k] by {
                assert(entries_map(fs).dom().contains(k));
                let j = choose|j: int| 0 <= j < fs.len() && fs[j].addr@ == k;
                lemma_entry_in_map(fs, j);
                if j < es.len() {
                    lemma_entry_in_map(es, j);
                }
            }
            assert(entries_map(fs) =~= m);
        }
    }

    /// Forgets the clients idle for `max_idle` or longer at `now`; the others
    /// stay as they are.
    pub fn forget_idle(&mut self, now: u64, max_idle: u64)
        ensures
            final(self)@ == old(self)@.restrict(
                old(self)@.dom().filter(|k: Seq<char>| idle_time(old(self)@[k].1, now) < max_idle),
            ),
            forall|k: Seq<char>| #[trigger] final(self)@.dom().contains(k) ==> idle_time(final(self)@[k].1, now) < max_idle,
    {
        proof {
            use_type_invariant(&*self);
            self.lemma_view();
        }
        let ghost es = self.entries@;
        let ghost keep = |e: ClientEntry<H>| idle_time(e.last_seen, now) < max_idle;
        let mut rest: Vec<ClientEntry<H>> = Vec::new();
        std::mem::swap(&mut rest, &mut self.entries);
        let mut kept: Vec<ClientEntry<H>> = Vec::new();
        let ghost mut origin: Seq<int> = Seq::empty();
        while rest.len() > 0
            invariant
                rest@ == es.take(rest@.len() as int),
                rest@.len() <= es.len(),
                addresses_distinct(es),
                keep == (|e: ClientEntry<H>| idle_time(e.last_seen, now) < max_idle),
                origin.len() == kept@.len(),
                forall|j: int|
                    0 <= j < kept@.len() ==> rest@.len() <= #[trigger] origin[j] < es.len() && kept@[j]
                        == es[origin[j]] && keep(es[origin[j]]),
                forall|i: int|
                    rest@.len() <= i < es.len() && keep(es[i]) ==> exists|j: int|
                        0 <= j < origin.len() && #[trigger] origin[j] == i,
                addresses_distinct(kept@),
            decreases rest@.len(),
        {
            let ghost n = rest@.len() as int;
            let e = rest.pop().unwrap();
            assert(e == es[n - 1]);
            assert(rest@ =~= es.take(n - 1));
            let idle = if now >= e.last_seen {
                now - e.last_seen
            } else {
                0
            };
            if idle < max_idle {
                assert(keep(es[n - 1]));
                let ghost before = kept@;
                let ghost before_origin = origin;
                proof {
                    assert forall|j: int| 0 <= j < before.len() implies before[j].addr@ != e.addr@ by {
                        assert(origin[j] != n - 1);
                    }
                }
                kept.push(e);
                proof {
                    origin = origin.push(n - 1);
                    assert forall|a: int, b: int|
                        0 <= a < kept@.len() && 0 <= b < kept@.len() && a != b implies kept@[a].addr@ != kept@[b].addr@ by {
                        if a < before.len() && b < before.len() {
                            assert(kept@[a] == before[a] && kept@[b] == before[b]);
                        } else if a < before.len() {
                            assert(kept@[a] == before[a]);
                        } else {
                            assert(kept@[b] == before[b]);
                        }
                    }
                    assert forall|j: int| 0 <= j < kept@.len() implies n - 1 <= #[trigger] origin[j] < es.len()
                        && kept@[j] == es[origin[j]] && keep(es[origin[j]]) by {
                        if j < before.len() {
                            assert(kept@[j] == before[j]);
                            assert(origin[j] == before_origin[j]);
                        }
                    }
                    assert forall|i: int| n - 1 <= i < es.len() && keep(es[i]) implies exists|j: int|
                        0 <= j < origin.len() && #[trigger] origin[j] == i by {
                        if i == n - 1 {
                            assert(origin[before.len() as int] == i);
                        } else {
                            let j = choose|j: int| 0 <= j < before_origin.len() && before_origin[j] == i;
                            assert(origin[j] == i);
                        }
                    }
                }
            } else {
                assert(!keep(es[n - 1]));
            }
        }
        self.entries = kept;
        proof {
            let ks = self.entries@;
            self.lemma_view();
            let old_map = entries_map(es);
            let m = old_map.restrict(old_map.dom().filter(|k: Seq<char>| idle_time(old_map[k].1, now) < max_idle));
            assert forall|k: Seq<char>| #[trigger] entries_map(ks).dom().contains(k) == m.dom().contains(k) by {
                if entries_map(ks).dom().contains(k) {
                    let j = choose|j: int| 0 <= j < ks.len() && ks[j].addr@ == k;
                    let i = origin[j];
                    lemma_entry_in_map(es, i);
                }
                if m.dom().contains(k) {
                    let i = choose|i: int| 0 <= i < es.len() && es[i].addr@ == k;
                    lemma_entry_in_map(es, i);
                    assert(keep(es[i]));
                    let j = choose|j: int| 0 <= j < origin.len() && origin[j] == i;
                    assert(ks[j].addr@ == k);
                }
            }
            assert forall|k: Seq<char>| m.dom().contains(k) implies entries_map(ks)[k] == m[k] by {
                assert(entries_map(ks).dom().contains(k));
                let j = choose|j: int| 0 <= j < ks.len() && ks[j].addr@ == k;
                let i = origin[j];
                lemma_entry_in_map(es, i);
                lemma_entry_in_map(ks, j);
            }
            assert(entries_map(ks) =~= m);
        }
    }
}

} // verus!
