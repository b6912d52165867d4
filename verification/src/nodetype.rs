use vstd::prelude::*;

verus! {

/// Broad physical category of a node.
pub enum NodeCategory {
    Root,
    Directory,
    File,
    Filepiece,
}

/// A type of node, identified by its name. This is the type itself, not an
/// instance of a node of that type.
#[derive(Debug, Clone)]
pub struct NodeType {
    label: String,
}

impl View for NodeType {
    type V = Seq<char>;

    closed spec fn view(&self) -> Seq<char> {
        self.label@
    }
}

impl NodeType {
    /// A node type with the given name.
    pub fn new(label: String) -> (res: Self)
        ensures
            res@ == label@,
    {
        Self { label }
    }

    /// The type of the root of the graph.
    pub fn root_type() -> (res: Self)
        ensures
            res@ == "Root"@,
    {
        Self { label: String::from_str("Root") }
    }

    /// The type of root-level virtual nodes (attributes, node types,
    /// settings and other such archetypes).
    pub fn archetype_type() -> (res: Self)
        ensures
            res@ == "Archetype"@,
    {
        Self { label: String::from_str("Archetype") }
    }

    /// The catch-all type.
    pub fn other() -> (res: Self)
        ensures
            res@ == "Other"@,
    {
        Self { label: String::from_str("Other") }
    }

    /// The name of this type.
    pub fn name(&self) -> (res: &str)
        ensures
            res@ == self@,
    {
        self.label.as_str()
    }
}

} // verus!
