//! The registry of network interfaces, by name.
use crate::net::{bytes_eq, Address};
use crate::route::{get_route_for, nth, route_matches, route_worse, Route};
use vstd::prelude::*;

verus! {

/// The interface named `name` in `entries`, if any.
pub open spec fn lookup<I>(entries: Seq<(Seq<u8>, I)>, name: Seq<u8>) -> Option<I> {
    if exists|k: int| 0 <= k < entries.len() && entries[k].0 == name {
        Some(entries[choose|k: int| 0 <= k < entries.len() && entries[k].0 == name].1)
    } else {
        None
    }
}

/// No two entries of `entries` have the same name.
pub open spec fn unique_names<I>(entries: Seq<(Seq<u8>, I)>) -> bool {
    forall|a: int, b: int|
        0 <= a < entries.len() && 0 <= b < entries.len() && a != b ==> #[trigger] entries[a].0
            != #[trigger] entries[b].0
}

/// With unique names, the interface named like entry `k` is the interface of entry `k`.
proof fn lemma_lookup_at<I>(entries: Seq<(Seq<u8>, I)>, k: int)
    requires
        unique_names(entries),
        0 <= k < entries.len(),
    ensures
        lookup(entries, entries[k].0) == Some(entries[k].1),
{
    let c = choose|c: int| 0 <= c < entries.len() && entries[c].0 == entries[k].0;
    if c != k {
        assert(entries[c].0 != entries[k].0);
    }
}

/// The list of network interfaces, by name.
pub struct Interfaces<I> {
    /// The interfaces with their names.
    entries: Vec<(Vec<u8>, I)>,
}

impl<I> Interfaces<I> {
    /// The interfaces with their names.
    pub closed spec fn view(&self) -> Seq<(Seq<u8>, I)> {
        self.entries@.map_values(|e: (Vec<u8>, I)| (e.0@, e.1))
    }

    /// No two interfaces have the same name.
    pub open spec fn wf(&self) -> bool {
        unique_names(self@)
    }

    /// Creates an empty list.
    pub fn new() -> (r: Self)
        ensures
            r.wf(),
            forall|n: Seq<u8>| lookup(r@, n) is None,
    {
        let r = Interfaces { entries: Vec::new() };
        assert(r@ =~= Seq::<(Seq<u8>, I)>::empty());
        r
    }

    /// Returns the index of the interface named `name`, if any.
    fn find(&self, name: &[u8]) -> (r: Option<usize>)
        requires
            self.wf(),
        ensures
            match r {
                Some(k) => k < self@.len() && self@[k as int].0 == name@,
                None => lookup(self@, name@) is None,
            },
    {
        let mut k: usize = 0;
        while k < self.entries.len()
            invariant
                k <= self@.len(),
                self@.len() == self.entries@.len(),
                forall|j: int| 0 <= j < k ==> (#[trigger] self@[j]).0 != name@,
            decreases self.entries@.len() - k,
        {
            assert(self@[k as int].0 == self.entries@[k as int].0@);
            if bytes_eq(self.entries[k].0.as_slice(), name) {
                return Some(k);
            }
            k += 1;
        }
        None
    }

    /// Registers the network interface `iface` under the name `name`, in place of the interface
    /// registered under that name, if any.
    pub fn register_iface(&mut self, name: Vec<u8>, iface: I) -> (r: Result<(), crate::errno::Errno>)
        requires
            old(self).wf(),
        ensures
            final(self).wf(),
            r is Ok,
            lookup(final(self)@, name@) == Some(iface),
            forall|n: Seq<u8>| n != name@ ==> #[trigger] lookup(final(self)@, n) == lookup(old(self)@, n),
    {
        let ghost key = name@;
        let ghost before = self@;
        match self.find(name.as_slice()) {
            Some(k) => {
                self.entries.set(k, (name, iface));
                proof {
                    assert(self@ =~= before.update(k as int, (key, iface)));
                    assert forall|a: int, b: int|
                        0 <= a < self@.len() && 0 <= b < self@.len() && a != b implies #[trigger] self@[a].0
                        != #[trigger] self@[b].0 by {
                        assert(before[a].0 != before[b].0);
                    }
                    lemma_lookup_at(self@, k as int);
                    assert forall|n: Seq<u8>| n != key implies #[trigger] lookup(self@, n) == lookup(before, n) by {
                        if exists|c: int| 0 <= c < self@.len() && self@[c].0 == n {
                            let c = choose|c: int| 0 <= c < self@.len() && self@[c].0 == n;
                            lemma_lookup_at(self@, c);
                            lemma_lookup_at(before, c);
                        } else if exists|c: int| 0 <= c < before.len() && before[c].0 == n {
                            let c = choose|c: int| 0 <= c < before.len() && before[c].0 == n;
                            assert(self@[c].0 == n);
                        }
                    }
                }
            },
            None => {
                self.entries.push((name, iface));
                proof {
                    assert(self@ =~= before.push((key, iface)));
                    assert forall|a: int, b: int|
                        0 <= a < self@.len() && 0 <= b < self@.len() && a != b implies #[trigger] self@[a].0
                        != #[trigger] self@[b].0 by {
                        if a < before.len() && b < before.len() {
                            assert(before[a].0 != before[b].0);
                        } else if a < before.len() {
                            assert(before[a].0 != key);
                        } else {
                            assert(before[b].0 != key);
                        }
                    }
                    lemma_lookup_at(self@, before.len() as int);
                    assert forall|n: Seq<u8>| n != key implies #[trigger] lookup(self@, n) == lookup(before, n) by {
                        if exists|c: int| 0 <= c < self@.len() && self@[c].0 == n {
                            let c = choose|c: int| 0 <= c < self@.len() && self@[c].0 == n;
                            lemma_lookup_at(self@, c);
                            lemma_lookup_at(before, c);
                        } else if exists|c: int| 0 <= c < before.len() && before[c].0 == n {
                            let c = choose|c: int| 0 <= c < before.len() && before[c].0 == n;
                            assert(self@[c].0 == n);
                        }
                    }
                }
            },
        }
        Ok(())
    }

    /// Unregisters the network interface with the given name.
    pub fn unregister_iface(&mut self, name: &[u8])
        requires
            old(self).wf(),
        ensures
            final(self).wf(),
            lookup(final(self)@, name@) is None,
            forall|n: Seq<u8>| n != name@ ==> #[trigger] lookup(final(self)@, n) == lookup(old(self)@, n),
    {
        let ghost before = self@;
        if let Some(k) = self.find(name) {
            self.entries.remove(k);
            proof {
                assert(self@ =~= before.remove(k as int));
                assert forall|a: int, b: int|
                    0 <= a < self@.len() && 0 <= b < self@.len() && a != b implies #[trigger] self@[a].0
                    != #[trigger] self@[b].0 by {
                    let a0 = if a < k { a } else { a + 1 };
                    let b0 = if b < k { b } else { b + 1 };
                    assert(self@[a] == before[a0] && self@[b] == before[b0]);
                    assert(before[a0].0 != before[b0].0);
                }
                assert(lookup(self@, name@) is None) by {
                    if exists|c: int| 0 <= c < self@.len() && self@[c].0 == name@ {
                        let c = choose|c: int| 0 <= c < self@.len() && self@[c].0 == name@;
                        let c0 = if c < k { c } else { c + 1 };
                        assert(before[c0].0 == name@ && c0 != k);
                        assert(before[c0].0 != before[k as int].0);
                    }
                }
                assert forall|n: Seq<u8>| n != name@ implies #[trigger] lookup(self@, n) == lookup(before, n) by {
                    if exists|c: int| 0 <= c < self@.len() && self@[c].0 == n {
                        let c = choose|c: int| 0 <= c < self@.len() && self@[c].0 == n;
                        let c0 = if c < k { c } else { c + 1 };
                        assert(self@[c] == before[c0]);
                        lemma_lookup_at(self@, c);
                        lemma_lookup_at(before, c0);
                    } else if exists|c: int| 0 <= c < before.len() && before[c].0 == n {
                        let c0 = choose|c: int| 0 <= c < before.len() && before[c].0 == n;
                        assert(c0 != k);
                        let c = if c0 < k { c0 } else { c0 - 1 };
                        assert(self@[c] == before[c0]);
                    }
                }
            }
        }
    }

    /// Returns the network interface with the given name, if any.
    pub fn get_iface(&self, name: &[u8]) -> (r: Option<&I>)
        requires
            self.wf(),
        ensures
            match r {
                Some(i) => lookup(self@, name@) == Some(*i),
                None => lookup(self@, name@) is None,
            },
    {
        match self.find(name) {
            Some(k) => {
                proof {
                    lemma_lookup_at(self@, k as int);
                }
                Some(&self.entries[k].1)
            },
            None => None,
        }
    }

    /// Returns the network interface to be used to transmit a packet to the address `addr`:
    /// the interface of the best route of `routes` for it (see [`get_route_for`]), if any.
    pub fn get_iface_for(&self, routes: &Vec<Route>, addr: &Address) -> (r: Option<&I>)
        requires
            self.wf(),
        ensures
            match r {
                Some(i) => exists|k: int|
                    0 <= k < routes@.len() && route_matches(routes@[k], *addr) && lookup(self@, routes@[k].iface@)
                        == Some(*i) && forall|j: int|
                        0 <= j < routes@.len() && route_matches(routes@[j], *addr) ==> !route_worse(
                            routes@[k],
                            routes@[j],
                            *addr,
                        ),
                None => forall|k: int|
                    0 <= k < routes@.len() && route_matches(routes@[k], *addr) && (forall|j: int|
                        k < j < routes@.len() && route_matches(routes@[j], *addr) ==> route_worse(
                            routes@[j],
                            routes@[k],
                            *addr,
                        )) && (forall|j: int|
                        0 <= j < routes@.len() && route_matches(routes@[j], *addr) ==> !route_worse(
                            routes@[k],
                            routes@[j],
                            *addr,
                        )) ==> lookup(self@, routes@[k].iface@) is None,
            },
    {
        match get_route_for(routes, addr) {
            Some(k) => {
                let r = self.get_iface(routes[k].iface.as_slice());
                proof {
                    assert(routes@[k as int] == nth(routes@, k));
                }
                r
            },
            None => None,
        }
    }
}

} // verus!
