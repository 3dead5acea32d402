//! The options of the connection to the nodes, which accounts carry along.

use vstd::prelude::*;

verus! {

/// The options of the client that talks to the nodes.
#[derive(Debug)]
pub struct ClientOptions {
    /// The addresses of the nodes to talk to.
    pub nodes: Vec<String>,
    /// The name of the network that the nodes belong to.
    pub network: Option<String>,
    /// Whether proof of work is done on this machine.
    pub local_pow: bool,
}

/// The options of the client as a mathematical value.
pub ghost struct ClientOptionsView {
    pub nodes: Seq<Seq<char>>,
    pub network: Option<Seq<char>>,
    pub local_pow: bool,
}

impl View for ClientOptions {
    type V = ClientOptionsView;

    open spec fn view(&self) -> ClientOptionsView {
        ClientOptionsView {
            nodes: Seq::new(self.nodes@.len(), |i: int| self.nodes@[i]@),
            network: match self.network {
                Some(name) => Some(name@),
                None => None,
            },
            local_pow: self.local_pow,
        }
    }
}

impl Clone for ClientOptions {
    fn clone(&self) -> (r: Self)
        ensures
            r@ == self@,
    {
        let mut nodes: Vec<String> = Vec::new();
        let mut i: usize = 0;
        while i < self.nodes.len()
            invariant
                i <= self.nodes.len(),
                nodes.len() == i,
                forall|j: int| 0 <= j < i ==> nodes@[j]@ == self.nodes@[j]@,
            decreases self.nodes.len() - i,
        {
            nodes.push(self.nodes[i].clone());
            i += 1;
        }
        let network = match &self.network {
            Some(name) => Some(name.clone()),
            None => None,
        };
        let r = ClientOptions { nodes, network, local_pow: self.local_pow };
        assert(r@.nodes =~= self@.nodes);
        r
    }
}

impl ClientOptions {
    /// Options that name no node and ask for proof of work on this
    /// machine.
    pub fn new() -> (r: Self)
        ensures
            r@ == (ClientOptionsView { nodes: Seq::empty(), network: None, local_pow: true }),
    {
        let r = ClientOptions { nodes: Vec::new(), network: None, local_pow: true };
        assert(r@.nodes =~= Seq::empty());
        r
    }
}

} // verus!
