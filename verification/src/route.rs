//! The routing table: selection of the route used to transmit a packet to a destination.
use crate::net::{address_eq, bind_matches, Address, BindAddress};
use core::cmp::Ordering;
use vstd::prelude::*;

verus! {

/// An entry in the routing table.
#[derive(Clone, Debug)]
pub struct Route {
    /// The destination address. If `None`, this is the default destination.
    pub dst: Option<BindAddress>,
    /// The name of the network interface.
    pub iface: Vec<u8>,
    /// The gateway's address.
    pub gateway: Address,
    /// The route's metric. The route with the lowest metric has priority.
    pub metric: u32,
}

/// Whether the destination of route `r` covers `addr`: a default route covers every address.
pub open spec fn dst_covers(r: Route, addr: Address) -> bool {
    match r.dst {
        None => true,
        Some(d) => bind_matches(d.addr, d.subnet_mask, addr),
    }
}

/// Whether route `r` matches the address `addr`: its gateway is the address, or its destination
/// covers it.
pub open spec fn route_matches(r: Route, addr: Address) -> bool {
    r.gateway == addr || dst_covers(r, addr)
}

/// Whether route `a` is worse than route `b` to reach `addr`. Routes are ranked by whether their
/// gateway is the address, then by whether their destination covers it, then by their metric,
/// the lowest metric being the best.
pub open spec fn route_worse(a: Route, b: Route, addr: Address) -> bool {
    let ga = a.gateway == addr;
    let gb = b.gateway == addr;
    let da = dst_covers(a, addr);
    let db = dst_covers(b, addr);
    ||| (!ga && gb)
    ||| (ga == gb && !da && db)
    ||| (ga == gb && da == db && a.metric > b.metric)
}

/// Whether routes `a` and `b` rank the same to reach `addr`.
pub open spec fn route_tie(a: Route, b: Route, addr: Address) -> bool {
    &&& (a.gateway == addr <==> b.gateway == addr)
    &&& (dst_covers(a, addr) <==> dst_covers(b, addr))
    &&& a.metric == b.metric
}

impl Route {
    /// Tells whether the destination of the route covers the given address.
    fn covers(&self, addr: &Address) -> (b: bool)
        ensures
            b == dst_covers(*self, *addr),
    {
        match &self.dst {
            None => true,
            Some(d) => d.is_matching(addr),
        }
    }

    /// Tells whether the route matches the given address.
    pub fn is_matching(&self, addr: &Address) -> (b: bool)
        ensures
            b == route_matches(*self, *addr),
    {
        if address_eq(&self.gateway, addr) {
            return true;
        }
        self.covers(addr)
    }

    /// Compares the current route with the given route `other` to reach `addr`.
    ///
    /// Ordering is done so that the best route is the greatest.
    pub fn cmp_for(&self, other: &Self, addr: &Address) -> (o: Ordering)
        ensures
            (o == Ordering::Less) == route_worse(*self, *other, *addr),
            (o == Ordering::Greater) == route_worse(*other, *self, *addr),
            (o == Ordering::Equal) == route_tie(*self, *other, *addr),
    {
        let self_gw = address_eq(addr, &self.gateway);
        let other_gw = address_eq(addr, &other.gateway);
        if self_gw != other_gw {
            return if other_gw {
                Ordering::Less
            } else {
                Ordering::Greater
            };
        }
        let self_dst = self.covers(addr);
        let other_dst = other.covers(addr);
        if self_dst != other_dst {
            return if other_dst {
                Ordering::Less
            } else {
                Ordering::Greater
            };
        }
        if self.metric > other.metric {
            Ordering::Less
        } else if self.metric < other.metric {
            Ordering::Greater
        } else {
            Ordering::Equal
        }
    }
}

/// The route at index `i` of `routes`.
pub open spec fn nth(routes: Seq<Route>, i: usize) -> Route {
    routes[i as int]
}

/// Returns the index of the route to be used to transmit a packet to the given destination
/// address: among the matching routes, the best one, the last one listed if several are equally
/// good. If no route matches, the function returns `None`.
pub fn get_route_for(routes: &Vec<Route>, addr: &Address) -> (r: Option<usize>)
    ensures
        match r {
            None => forall|j: int| 0 <= j < routes@.len() ==> !route_matches(routes@[j], *addr),
            Some(i) => {
                &&& i < routes@.len()
                &&& route_matches(nth(routes@, i), *addr)
                &&& forall|j: int|
                    0 <= j < routes@.len() && route_matches(routes@[j], *addr) ==> !route_worse(
                        nth(routes@, i),
                        routes@[j],
                        *addr,
                    )
                &&& forall|j: int|
                    i < j < routes@.len() && route_matches(routes@[j], *addr) ==> route_worse(
                        routes@[j],
                        nth(routes@, i),
                        *addr,
                    )
            },
        },
{
    let mut best: Option<usize> = None;
    let mut k: usize = 0;
    while k < routes.len()
        invariant
            k <= routes@.len(),
            match best {
                None => forall|j: int| 0 <= j < k ==> !route_matches(routes@[j], *addr),
                Some(i) => {
                    &&& i < k
                    &&& route_matches(nth(routes@, i), *addr)
                    &&& forall|j: int|
                        0 <= j < k && route_matches(routes@[j], *addr) ==> !route_worse(
                            nth(routes@, i),
                            routes@[j],
                            *addr,
                        )
                    &&& forall|j: int|
                        i < j < k && route_matches(routes@[j], *addr) ==> route_worse(
                            routes@[j],
                            nth(routes@, i),
                            *addr,
                        )
                },
            },
        decreases routes@.len() - k,
    {
        if routes[k].is_matching(addr) {
            match best {
                None => {
                    best = Some(k);
                },
                Some(i) => {
                    let o = routes[k].cmp_for(&routes[i], addr);
                    match o {
                        Ordering::Less => {},
                        _ => {
                            best = Some(k);
                        },
                    }
                },
            }
        }
        k += 1;
    }
    best
}

/// How routes rank to reach `addr` ([`Route::cmp_for`]): a route whose gateway is the address
/// itself beats one whose gateway is not, whatever their destinations and metrics; between
/// routes alike on that, one whose destination covers the address beats one whose destination
/// does not, whatever their metrics; between routes alike on both, the lower metric wins. The
/// ranking is a strict order: no route is both worse and better than another, nor tied with it.
pub proof fn lemma_route_ranking(a: Route, b: Route, addr: Address)
    ensures
        a.gateway == addr && b.gateway != addr ==> route_worse(b, a, addr) && !route_worse(a, b, addr)
            && !route_tie(a, b, addr),
        (a.gateway == addr <==> b.gateway == addr) && dst_covers(a, addr) && !dst_covers(b, addr)
            ==> route_worse(b, a, addr) && !route_worse(a, b, addr) && !route_tie(a, b, addr),
        (a.gateway == addr <==> b.gateway == addr) && (dst_covers(a, addr) <==> dst_covers(b, addr))
            ==> (route_worse(b, a, addr) <==> a.metric < b.metric) && (route_tie(a, b, addr)
            <==> a.metric == b.metric),
        !(route_worse(a, b, addr) && route_worse(b, a, addr)),
        route_tie(a, b, addr) <==> !route_worse(a, b, addr) && !route_worse(b, a, addr),
{
}

} // verus!
