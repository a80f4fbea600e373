//! Document trees, held as an arena of nodes addressed by index.

use vstd::prelude::*;

verus! {

/// One node of a document tree: an element or a text leaf.
#[derive(Clone, Debug)]
pub struct DocNode {
    /// The tag name of an element.
    pub name: Vec<char>,
    /// The names that the class attribute of an element holds, in their order.
    pub classes: Vec<Vec<char>>,
    /// Whether the node is a text leaf.
    pub is_text: bool,
    /// The literal content of a text leaf.
    pub content: Vec<char>,
    /// The parent, absent at the root.
    pub parent: Option<usize>,
    /// The children, in document order.
    pub children: Vec<usize>,
}

/// A document tree. Node identifiers are indices into `nodes`.
#[derive(Clone, Debug)]
pub struct DocTree {
    pub nodes: Vec<DocNode>,
}

impl DocTree {
    /// Every child lies after its parent in the arena and names it as its
    /// parent, and every parent lies before its child: the tree is acyclic,
    /// no node has two parents, and every walk ends.
    pub open spec fn wf(&self) -> bool {
        &&& forall|i: int, k: int|
            0 <= i < self.nodes@.len() && 0 <= k < self.nodes@[i].children@.len() ==> {
                &&& i < #[trigger] self.nodes@[i].children@[k] < self.nodes@.len()
                &&& self.nodes@[self.nodes@[i].children@[k] as int].parent == Some(i as usize)
            }
        &&& forall|i: int|
            0 <= i < self.nodes@.len() ==> match (#[trigger] self.nodes@[i]).parent {
                Some(p) => p < i,
                None => true,
            }
    }

    /// Decides `wf`.
    pub fn is_well_formed(&self) -> (r: bool)
        ensures
            r == self.wf(),
    {
        let n: usize = self.nodes.len();
        let mut i: usize = 0;
        while i < n
            invariant
                n == self.nodes@.len(),
                i <= n,
                forall|a: int, k: int|
                    0 <= a < i && 0 <= k < self.nodes@[a].children@.len() ==> {
                        &&& a < #[trigger] self.nodes@[a].children@[k] < n
                        &&& self.nodes@[self.nodes@[a].children@[k] as int].parent == Some(
                            a as usize,
                        )
                    },
                forall|a: int|
                    0 <= a < i ==> match (#[trigger] self.nodes@[a]).parent {
                        Some(p) => p < a,
                        None => true,
                    },
            decreases n - i,
        {
            let node = &self.nodes[i];
            match node.parent {
                Some(p) => {
                    if p >= i {
                        return false;
                    }
                },
                None => {},
            }
            let m: usize = node.children.len();
            let mut k: usize = 0;
            while k < m
                invariant
                    i < n,
                    n == self.nodes@.len(),
                    node == &self.nodes@[i as int],
                    m == node.children@.len(),
                    k <= m,
                    forall|j: int|
                        0 <= j < k ==> {
                            &&& i < #[trigger] node.children@[j] < n
                            &&& self.nodes@[node.children@[j] as int].parent == Some(i)
                        },
                decreases m - k,
            {
                let c: usize = node.children[k];
                if c <= i || c >= n {
                    assert(!(i < self.nodes@[i as int].children@[k as int] < n));
                    return false;
                }
                let named: bool = match self.nodes[c].parent {
                    Some(q) => q == i,
                    None => false,
                };
                if !named {
                    assert(self.nodes@[self.nodes@[i as int].children@[k as int] as int].parent
                        != Some(i));
                    return false;
                }
                k += 1;
            }
            i += 1;
        }
        true
    }
}

} // verus!
