//! The peer registry: the set of known peer addresses, address-unique.
//!
//! Registration inserts an address not already known; eviction removes one
//! that is. Callers serialize access: lookups and snapshots may share,
//! registration and eviction are exclusive.

use vstd::prelude::*;
use vstd::string::StringExecFns;
use crate::utils::str_eq;

verus! {

/// One known peer: its network endpoint identifier.
pub struct Node {
    pub addr: String,
}

impl View for Node {
    type V = Seq<char>;

    open spec fn view(&self) -> Seq<char> {
        self.addr@
    }
}

impl Node {
    /// A peer with the given address.
    pub fn new(addr: String) -> (r: Node)
        ensures
            r@ == addr@,
    {
        Node { addr }
    }

    /// The peer's address.
    pub fn get_addr(&self) -> (r: String)
        ensures
            r@ == self@,
    {
        self.addr.clone()
    }
}

/// The addresses of a sequence of peers.
pub open spec fn nodes_view(s: Seq<Node>) -> Seq<Seq<char>> {
    s.map_values(|n: Node| n@)
}

/// Whether the registry knows this address.
pub open spec fn addr_known(s: Seq<Seq<char>>, addr: Seq<char>) -> bool {
    exists|i: int| 0 <= i < s.len() && s[i] == addr
}

/// A well-formed registry: addresses unique.
pub open spec fn nodes_wf(s: Seq<Seq<char>>) -> bool {
    forall|i: int, j: int| 0 <= i < j < s.len() ==> s[i] != s[j]
}

/// The registry of known peers.
pub struct Nodes {
    pub inner: Vec<Node>,
}

impl View for Nodes {
    type V = Seq<Seq<char>>;

    open spec fn view(&self) -> Seq<Seq<char>> {
        nodes_view(self.inner@)
    }
}

impl Nodes {
    /// An empty registry.
    pub fn new() -> (r: Nodes)
        ensures
            r@ == Seq::<Seq<char>>::empty(),
            nodes_wf(r@),
    {
        let r = Nodes { inner: Vec::new() };
        proof {
            assert(r@ =~= Seq::<Seq<char>>::empty());
        }
        r
    }

    /// Registers an address; one already known is left alone.
    pub fn add_node(&mut self, addr: String)
        requires
            nodes_wf(old(self)@),
        ensures
            nodes_wf(final(self)@),
            addr_known(old(self)@, addr@) ==> final(self)@ == old(self)@,
            !addr_known(old(self)@, addr@) ==> final(self)@ == old(self)@.push(addr@),
            addr_known(final(self)@, addr@),
    {
        if self.node_is_known(addr.as_str()) {
            return;
        }
        let ghost a = addr@;
        self.inner.push(Node { addr });
        proof {
            assert(self@ =~= old(self)@.push(a));
            assert(self@[self@.len() - 1] == a);
        }
    }

    /// Evicts an address; one not known is a no-op.
    pub fn evict_node(&mut self, addr: &str)
        requires
            nodes_wf(old(self)@),
        ensures
            nodes_wf(final(self)@),
            !addr_known(final(self)@, addr@),
            !addr_known(old(self)@, addr@) ==> final(self)@ == old(self)@,
            addr_known(old(self)@, addr@) ==> exists|p: int|
                0 <= p < old(self)@.len() && old(self)@[p] == addr@ && final(self)@ == old(
                    self,
                )@.remove(p),
    {
        let mut i: usize = 0;
        while i < self.inner.len()
            invariant
                i <= self.inner@.len(),
                self@.len() == self.inner@.len(),
                self@ == old(self)@,
                nodes_wf(old(self)@),
                forall|k: int| 0 <= k < i ==> self@[k] != addr@,
            decreases self.inner@.len() - i,
        {
            if str_eq(self.inner[i].addr.as_str(), addr) {
                self.inner.remove(i);
                proof {
                    assert(self@ =~= old(self)@.remove(i as int));
                    assert(old(self)@[i as int] == addr@);
                    assert(!addr_known(self@, addr@)) by {
                        if addr_known(self@, addr@) {
                            let w = choose|k: int| 0 <= k < self@.len() && self@[k] == addr@;
                            if w < i {
                                assert(old(self)@[w] == addr@);
                            } else {
                                assert(self@[w] == old(self)@[w + 1]);
                            }
                        }
                    };
                    assert(nodes_wf(self@)) by {
                        assert forall|a: int, b: int|
                            0 <= a < b < self@.len() implies self@[a] != self@[b] by {
                            let a0: int = if a < i { a } else { a + 1 };
                            let b0: int = if b < i { b } else { b + 1 };
                            assert(self@[a] == old(self)@[a0]);
                            assert(self@[b] == old(self)@[b0]);
                        };
                    };
                }
                return;
            }
            i = i + 1;
        }
    }

    /// The first known peer, used to pick a bootstrap contact.
    pub fn first(&self) -> (r: Option<Node>)
        ensures
            match r {
                Some(n) => self@.len() > 0 && n@ == self@[0],
                None => self@.len() == 0,
            },
    {
        if self.inner.len() > 0 {
            Some(Node { addr: self.inner[0].addr.clone() })
        } else {
            None
        }
    }

    /// A snapshot of the known peers, in registration order.
    pub fn get_nodes(&self) -> (r: Vec<Node>)
        ensures
            nodes_view(r@) == self@,
    {
        let mut r: Vec<Node> = Vec::new();
        let mut i: usize = 0;
        while i < self.inner.len()
            invariant
                i <= self.inner@.len(),
                r@.len() == i,
                forall|k: int| 0 <= k < i ==> (#[trigger] r@[k])@ == self.inner@[k]@,
            decreases self.inner@.len() - i,
        {
            r.push(Node { addr: self.inner[i].addr.clone() });
            i = i + 1;
        }
        proof {
            assert(nodes_view(r@) =~= self@);
        }
        r
    }

    /// The number of known peers.
    pub fn len(&self) -> (r: usize)
        ensures
            r == self@.len(),
    {
        self.inner.len()
    }

    /// Whether this address is known.
    pub fn node_is_known(&self, addr: &str) -> (r: bool)
        ensures
            r == addr_known(self@, addr@),
    {
        let mut i: usize = 0;
        while i < self.inner.len()
            invariant
                i <= self.inner@.len(),
                self@.len() == self.inner@.len(),
                forall|k: int| 0 <= k < i ==> self@[k] != addr@,
            decreases self.inner@.len() - i,
        {
            if str_eq(self.inner[i].addr.as_str(), addr) {
                proof {
                    assert(self@[i as int] == addr@);
                }
                return true;
            }
            i = i + 1;
        }
        false
    }
}

} // verus!
