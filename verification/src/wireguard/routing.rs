//! Longest-prefix-match tables from inner addresses to peers.
use crate::wireguard::types::IpAddress;
use vstd::prelude::*;

verus! {

/// One entry of a table: the addresses that share the first `masklen` bits
/// of `addr` belong to `value`.
#[derive(Debug, Copy, Clone, PartialEq, Eq, Structural)]
pub struct Route {
    pub addr: u128,
    pub masklen: u32,
    pub value: usize,
}

/// `addr` lies in the prefix of `r`, for addresses `bits` wide.
pub open spec fn route_matches(bits: u32, r: Route, addr: u128) -> bool {
    r.masklen == 0 || (r.masklen <= bits && (r.addr >> ((bits - r.masklen) as u32)) == (addr >> ((bits
        - r.masklen) as u32)))
}

/// Route `i` is the one a lookup of `addr` settles on: it matches, no matching
/// route has a longer prefix, and of those as long it was inserted last.
pub open spec fn is_best(routes: Seq<Route>, bits: u32, addr: u128, i: int) -> bool {
    &&& 0 <= i < routes.len()
    &&& route_matches(bits, routes[i], addr)
    &&& forall|j: int|
        0 <= j < routes.len() && route_matches(bits, #[trigger] routes[j], addr) ==> routes[j].masklen
            < routes[i].masklen || (routes[j].masklen == routes[i].masklen && j <= i)
}

/// Some route matches `addr`.
pub open spec fn any_match(routes: Seq<Route>, bits: u32, addr: u128) -> bool {
    exists|j: int| 0 <= j < routes.len() && route_matches(bits, #[trigger] routes[j], addr)
}

/// The value that a lookup of `addr` gives.
pub open spec fn spec_lookup(routes: Seq<Route>, bits: u32, addr: u128) -> Option<usize> {
    if exists|i: int| is_best(routes, bits, addr, i) {
        Some(routes[choose|i: int| is_best(routes, bits, addr, i)].value)
    } else {
        None
    }
}

/// At most one route is the best.
pub proof fn lemma_best_unique(routes: Seq<Route>, bits: u32, addr: u128, i: int, j: int)
    requires
        is_best(routes, bits, addr, i),
        is_best(routes, bits, addr, j),
    ensures
        i == j,
{
}

/// A table of prefixes of one address family.
pub struct IpLookupTable {
    bits: u32,
    routes: Vec<Route>,
}

impl IpLookupTable {
    /// Width of the addresses.
    pub closed spec fn bits(&self) -> u32 {
        self.bits
    }

    /// The routes, in the order of their insertion.
    pub closed spec fn routes(&self) -> Seq<Route> {
        self.routes@
    }

    /// The width is that of IPv4 or IPv6 and no prefix is longer.
    pub closed spec fn wf(&self) -> bool {
        &&& (self.bits == 32 || self.bits == 128)
        &&& forall|i: int| 0 <= i < self.routes@.len() ==> (#[trigger] self.routes@[i]).masklen <= self.bits
    }

    /// An empty table for addresses `bits` wide.
    pub fn new(bits: u32) -> (t: IpLookupTable)
        requires
            bits == 32 || bits == 128,
        ensures
            t.wf(),
            t.bits() == bits,
            t.routes() == Seq::<Route>::empty(),
    {
        IpLookupTable { bits, routes: Vec::new() }
    }

    /// Add a prefix. A prefix inserted again takes the new value.
    pub fn insert(&mut self, addr: u128, masklen: u32, value: usize)
        requires
            old(self).wf(),
            masklen <= old(self).bits(),
        ensures
            final(self).wf(),
            final(self).bits() == old(self).bits(),
            final(self).routes() == old(self).routes().push(Route { addr, masklen, value }),
    {
        self.routes.push(Route { addr, masklen, value });
    }

    fn matches(&self, i: usize, addr: u128) -> (r: bool)
        requires
            self.wf(),
            i < self.routes@.len(),
        ensures
            r == route_matches(self.bits, self.routes@[i as int], addr),
    {
        let r = self.routes[i];
        if r.masklen == 0 {
            true
        } else {
            let sh: u32 = self.bits - r.masklen;
            (r.addr >> sh) == (addr >> sh)
        }
    }

    /// The value of the longest prefix that holds `addr`; of equally long
    /// ones, the one inserted last.
    pub fn longest_match(&self, addr: u128) -> (r: Option<usize>)
        requires
            self.wf(),
        ensures
            r == spec_lookup(self.routes(), self.bits(), addr),
            r.is_some() <==> any_match(self.routes(), self.bits(), addr),
    {
        let mut best: Option<usize> = None;
        let mut i: usize = 0;
        while i < self.routes.len()
            invariant
                self.wf(),
                i <= self.routes@.len(),
                best.is_none() ==> forall|j: int|
                    0 <= j < i ==> !route_matches(self.bits, #[trigger] self.routes@[j], addr),
                best matches Some(b) ==> is_best(self.routes@.take(i as int), self.bits, addr, b as int),
            decreases self.routes@.len() - i,
        {
            let ghost before = self.routes@.take(i as int);
            let ghost after = self.routes@.take(i + 1);
            proof {
                assert(forall|j: int| 0 <= j < i ==> before[j] == after[j]);
                assert(after[i as int] == self.routes@[i as int]);
            }
            if self.matches(i, addr) {
                match best {
                    None => {
                        best = Some(i);
                    },
                    Some(b) => {
                        if self.routes[i].masklen >= self.routes[b].masklen {
                            best = Some(i);
                        }
                    },
                }
            }
            proof {
                if let Some(b) = best {
                    assert(is_best(after, self.bits, addr, b as int));
                }
            }
            i = i + 1;
        }
        proof {
            assert(self.routes@.take(i as int) =~= self.routes@);
            match best {
                None => {
                    assert(!any_match(self.routes@, self.bits, addr));
                    assert(forall|k: int| !is_best(self.routes@, self.bits, addr, k));
                },
                Some(b) => {
                    let c = choose|k: int| is_best(self.routes@, self.bits, addr, k);
                    lemma_best_unique(self.routes@, self.bits, addr, b as int, c);
                },
            }
        }
        match best {
            None => None,
            Some(b) => Some(self.routes[b].value),
        }
    }
}

/// The number that stands for an address in a table.
pub open spec fn spec_address_key(a: IpAddress) -> u128 {
    match a {
        IpAddress::V4(x) => x as u128,
        IpAddress::V6(x) => x,
    }
}

/// The number that stands for an address in a table.
pub fn address_key(a: IpAddress) -> (k: u128)
    ensures
        k == spec_address_key(a),
{
    match a {
        IpAddress::V4(x) => x as u128,
        IpAddress::V6(x) => x,
    }
}

} // verus!
