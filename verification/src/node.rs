//! The addresses of the peers that a node knows.

use vstd::prelude::*;

verus! {

/// The address of the node that every other node announces itself to.
pub const CENTRAL_NODE: &'static str = "127.0.0.1:2001";

/// The position of the first occurrence of an address, from `from` on.
pub open spec fn address_position(nodes: Seq<Seq<char>>, addr: Seq<char>, from: int) -> Option<int>
    decreases nodes.len() - from,
{
    if from < 0 || from >= nodes.len() {
        None
    } else if nodes[from] == addr {
        Some(from)
    } else {
        address_position(nodes, addr, from + 1)
    }
}

/// The registry after an address was added: a known address changes
/// nothing, a new one comes last.
pub open spec fn with_address(nodes: Seq<Seq<char>>, addr: Seq<char>) -> Seq<Seq<char>> {
    if address_position(nodes, addr, 0).is_some() {
        nodes
    } else {
        nodes.push(addr)
    }
}

/// The registry after an address was evicted. The central node stays.
pub open spec fn without_address(nodes: Seq<Seq<char>>, addr: Seq<char>) -> Seq<Seq<char>> {
    if addr == CENTRAL_NODE@ {
        nodes
    } else {
        match address_position(nodes, addr, 0) {
            Some(position) => nodes.remove(position),
            None => nodes,
        }
    }
}

pub open spec fn addresses(nodes: Seq<String>) -> Seq<Seq<char>> {
    nodes.map_values(|s: String| s@)
}

/// What `address_position` finds is the address, and it is found wherever
/// the address occurs.
pub proof fn lemma_address_position(nodes: Seq<Seq<char>>, addr: Seq<char>, from: int)
    requires
        0 <= from,
    ensures
        match address_position(nodes, addr, from) {
            Some(position) => from <= position < nodes.len() && nodes[position] == addr,
            None => forall|i: int| from <= i < nodes.len() ==> nodes[i] != addr,
        },
    decreases nodes.len() - from,
{
    if from < nodes.len() && nodes[from] != addr {
        lemma_address_position(nodes, addr, from + 1);
    }
}

pub struct Nodes {
    inner: Vec<String>,
}

impl View for Nodes {
    type V = Seq<Seq<char>>;

    closed spec fn view(&self) -> Seq<Seq<char>> {
        addresses(self.inner@)
    }
}

impl Nodes {
    /// The registry knows the central node.
    pub open spec fn well_formed(&self) -> bool {
        address_position(self@, CENTRAL_NODE@, 0).is_some()
    }

    /// A registry that knows the central node and no other.
    pub fn new() -> (nodes: Nodes)
        ensures
            nodes@ == seq![CENTRAL_NODE@],
            nodes.well_formed(),
    {
        let nodes = Nodes { inner: vec![CENTRAL_NODE.to_owned()] };
        assert(nodes@ =~= seq![CENTRAL_NODE@]);
        nodes
    }

    fn position(&self, addr: &String) -> (position: Option<usize>)
        ensures
            position.is_some() == address_position(self@, addr@, 0).is_some(),
            position.is_some() ==> position.unwrap() as int == address_position(
                self@,
                addr@,
                0,
            ).unwrap() && position.unwrap() < self.inner@.len(),
    {
        let mut i: usize = 0;
        while i < self.inner.len()
            invariant
                i <= self.inner@.len(),
                address_position(self@, addr@, 0) == address_position(self@, addr@, i as int),
            decreases self.inner@.len() - i,
        {
            if self.inner[i] == *addr {
                return Some(i);
            }
            i += 1;
        }
        None
    }

    /// Whether the registry knows an address.
    pub fn node_is_known(&self, addr: &str) -> (known: bool)
        ensures
            known == address_position(self@, addr@, 0).is_some(),
    {
        let owned = addr.to_owned();
        self.position(&owned).is_some()
    }

    /// Adds an address, unless it is known.
    pub fn add_node(&mut self, addr: String)
        ensures
            final(self)@ == with_address(old(self)@, addr@),
            old(self).well_formed() ==> final(self).well_formed(),
    {
        if self.position(&addr).is_none() {
            let ghost before = self@;
            self.inner.push(addr);
            assert(self@ =~= before.push(addr@));
            proof {
                lemma_address_position(before, CENTRAL_NODE@, 0);
                lemma_address_position(self@, CENTRAL_NODE@, 0);
                if address_position(before, CENTRAL_NODE@, 0).is_some() {
                    let p = address_position(before, CENTRAL_NODE@, 0).unwrap();
                    assert(self@[p] == CENTRAL_NODE@);
                }
            }
        }
    }

    /// Takes an address out of the registry. The central node is never
    /// taken out.
    pub fn evict_node(&mut self, addr: &str)
        ensures
            final(self)@ == without_address(old(self)@, addr@),
            old(self).well_formed() ==> final(self).well_formed(),
    {
        let owned = addr.to_owned();
        let central = CENTRAL_NODE.to_owned();
        if owned == central {
            return ;
        }
        match self.position(&owned) {
            Some(position) => {
                let ghost before = self@;
                self.inner.remove(position);
                assert(self@ =~= before.remove(position as int));
                proof {
                    lemma_address_position(before, addr@, 0);
                    lemma_address_position(before, CENTRAL_NODE@, 0);
                    lemma_address_position(self@, CENTRAL_NODE@, 0);
                    if address_position(before, CENTRAL_NODE@, 0).is_some() {
                        let p = address_position(before, CENTRAL_NODE@, 0).unwrap();
                        if p < position {
                            assert(self@[p] == CENTRAL_NODE@);
                        } else {
                            assert(self@[p - 1] == CENTRAL_NODE@);
                        }
                    }
                }
            },
            None => {},
        }
    }

    /// The known addresses, in the order in which they were added.
    pub fn get_nodes(&self) -> (nodes: Vec<String>)
        ensures
            addresses(nodes@) == self@,
    {
        let mut nodes: Vec<String> = Vec::new();
        let mut i: usize = 0;
        while i < self.inner.len()
            invariant
                i <= self.inner@.len(),
                nodes@.len() == i,
                forall|k: int| 0 <= k < i ==> nodes@[k]@ == self.inner@[k]@,
            decreases self.inner@.len() - i,
        {
            nodes.push(self.inner[i].clone());
            i += 1;
        }
        assert(addresses(nodes@) =~= self@);
        nodes
    }

    /// Number of known addresses.
    pub fn len(&self) -> (n: usize)
        ensures
            n == self@.len(),
    {
        self.inner.len()
    }
}

} // verus!
