use vstd::prelude::*;

verus! {

/// An opaque window identifier assigned by the window manager.
#[derive(Debug, PartialEq, Eq, Hash, Clone)]
pub struct Node(pub String);

impl View for Node {
    type V = Seq<char>;

    open spec fn view(&self) -> Seq<char> {
        self.0@
    }
}

impl Node {
    /// A node with the same identifier; the derived `Clone` carries no contract.
    pub fn duplicate(&self) -> (r: Node)
        ensures
            r@ == self@,
    {
        Node(self.0.clone())
    }

    /// Whether two nodes carry the same identifier.
    pub fn same_as(&self, other: &Node) -> (r: bool)
        ensures
            r == (self@ == other@),
    {
        self.0 == other.0
    }
}

/// Which of the two sets a node entered on a tag toggle.
#[derive(Debug, PartialEq, Eq, Structural, Clone, Copy)]
pub enum TagStatus {
    Tagged,
    Untagged,
}

} // verus!
