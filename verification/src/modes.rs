use vstd::prelude::*;
use crate::text::same_text;

verus! {

/// The interaction modes of the graph view.
#[derive(Clone, Copy, PartialEq, Eq, Structural, Debug, Hash)]
pub enum KartaModeState {
    Move,
    Edges,
    State,
    Play,
}

/// The label under which a mode is shown.
pub open spec fn mode_label(m: KartaModeState) -> Seq<char> {
    match m {
        KartaModeState::Move => "Move"@,
        KartaModeState::Edges => "Edges"@,
        KartaModeState::State => "Context"@,
        KartaModeState::Play => "Play"@,
    }
}

impl KartaModeState {
    /// The label under which this mode is shown.
    pub fn label(&self) -> (res: String)
        ensures
            res@ == mode_label(*self),
    {
        match self {
            KartaModeState::Move => String::from_str("Move"),
            KartaModeState::Edges => String::from_str("Edges"),
            KartaModeState::State => String::from_str("Context"),
            KartaModeState::Play => String::from_str("Play"),
        }
    }
}

impl Default for KartaModeState {
    fn default() -> (res: Self)
        ensures
            res == KartaModeState::Move,
    {
        KartaModeState::Move
    }
}

/// The mode in use.
pub struct ActiveMode {
    pub mode: KartaModeState,
}

impl Default for ActiveMode {
    fn default() -> (res: Self)
        ensures
            res.mode == KartaModeState::Move,
    {
        ActiveMode { mode: KartaModeState::Move }
    }
}

/// What the pointer last picked in the graph view.
#[derive(Clone, Copy, PartialEq, Eq, Structural, Debug)]
pub enum GraphPickingTarget {
    Node,
    NodeOutline,
    Edge,
    Nothing,
}

impl GraphPickingTarget {
    /// The outline of a node was picked.
    pub fn is_outline(&self) -> (res: bool)
        ensures
            res == (*self == GraphPickingTarget::NodeOutline),
    {
        match self {
            GraphPickingTarget::NodeOutline => true,
            _ => false,
        }
    }

    /// A node was picked.
    pub fn is_node(&self) -> (res: bool)
        ensures
            res == (*self == GraphPickingTarget::Node),
    {
        match self {
            GraphPickingTarget::Node => true,
            _ => false,
        }
    }

    /// An edge was picked.
    pub fn is_edge(&self) -> (res: bool)
        ensures
            res == (*self == GraphPickingTarget::Edge),
    {
        match self {
            GraphPickingTarget::Edge => true,
            _ => false,
        }
    }
}

/// Whether node positions are interpolated when they change.
pub struct NodeInterpolationSettings {
    pub active: bool,
}

impl Default for NodeInterpolationSettings {
    fn default() -> (res: Self)
        ensures
            res.active,
    {
        NodeInterpolationSettings { active: true }
    }
}

/// What a node is pinned to: its position, its presence, or the interface.
#[derive(Clone, Copy, PartialEq, Eq, Structural, Debug)]
pub struct Pins {
    pub position: bool,
    pub presence: bool,
    pub ui: bool,
}

impl Pins {
    /// Not pinned.
    pub fn unpinned() -> (res: Self)
        ensures
            !res.position && !res.presence && !res.ui,
    {
        Pins { position: false, presence: false, ui: false }
    }

    /// Pinned to its position only.
    pub fn new_pinpos() -> (res: Self)
        ensures
            res.position && !res.presence && !res.ui,
    {
        Pins { position: true, presence: false, ui: false }
    }

    /// Pinned to its presence only.
    pub fn pinpres() -> (res: Self)
        ensures
            !res.position && res.presence && !res.ui,
    {
        Pins { position: false, presence: true, ui: false }
    }

    /// Pinned to the interface only.
    pub fn pinui() -> (res: Self)
        ensures
            !res.position && !res.presence && res.ui,
    {
        Pins { position: false, presence: false, ui: true }
    }
}

/// The two kinds of edges in the graph view.
#[derive(Clone, Copy, PartialEq, Eq, Structural, Debug)]
pub enum EdgeTypes {
    Base,
    Parent,
}

impl Default for EdgeTypes {
    fn default() -> (res: Self)
        ensures
            res == EdgeTypes::Base,
    {
        EdgeTypes::Base
    }
}

/// The ends of an edge in the graph view, by node path.
pub struct GraphDataEdge {
    pub source: String,
    pub target: String,
}

impl GraphDataEdge {
    /// Both edges join the same two nodes, in either direction.
    pub fn same_pair(&self, other: &GraphDataEdge) -> (res: bool)
        ensures
            res == ((self.source@ == other.source@ && self.target@ == other.target@)
                || (self.source@ == other.target@ && self.target@ == other.source@)),
    {
        (same_text(self.source.as_str(), other.source.as_str()) && same_text(self.target.as_str(), other.target.as_str()))
            || (same_text(self.source.as_str(), other.target.as_str()) && same_text(self.target.as_str(), other.source.as_str()))
    }
}

/// An edge may be deleted from the view unless it is a parent edge.
pub fn edge_is_deletable(etype: EdgeTypes) -> (res: bool)
    ensures
        res == (etype != EdgeTypes::Parent),
{
    etype != EdgeTypes::Parent
}

} // verus!
