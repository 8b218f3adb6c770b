use vstd::prelude::*;

verus! {

/// Index of a node in a DOM arena.
pub type NodeId = usize;

/// Identity that lets input handling address a hit-testable node.
pub type TagId = u64;

/// Identity of a callback kept in an external default-callback table.
pub type DefaultCallbackId = u64;

/// Handle of an inline callback supplied by the user.
pub type CallbackId = u64;

/// The four categories under which a callback can be registered.
#[derive(Clone, Copy, Debug, PartialEq, Eq, Structural)]
pub enum FilterClass {
    /// Fires when the node itself is hit-tested (hover, click, ...).
    Regular,
    /// Fires when the node is *not* hovered or focused.
    Not,
    /// Fires on window-level events.
    Window,
    /// Fires on desktop-level events.
    Desktop,
}

/// A callback's trigger: its category and the event code within it.
#[derive(Clone, Copy, Debug, PartialEq, Eq, Structural)]
pub struct EventFilter {
    pub class: FilterClass,
    pub event: u32,
}

/// A callback: either an inline handle or a reference into the default-callback table.
#[derive(Clone, Copy, Debug, PartialEq, Eq, Structural)]
pub enum Callback {
    Inline(CallbackId),
    Default(DefaultCallbackId),
}

/// Keyboard focus order of a node that opted into focus.
#[derive(Clone, Copy, Debug, PartialEq, Eq, Structural)]
pub enum TabIndex {
    Auto,
    OverrideInParent(usize),
    NoKeyboardFocus,
}

/// The group a node belongs to for `:hover` / `:active` restyling.
#[derive(Clone, Copy, Debug, PartialEq, Eq, Structural)]
pub struct HoverGroup {
    /// Whether the restyle can change the layout.
    pub affects_layout: bool,
    /// `true` for `:active`, `false` for `:hover`.
    pub active: bool,
}

/// One node of the DOM: its element type, id, classes and input markers.
#[derive(Clone, Debug)]
pub struct NodeData {
    /// Index of the parent node; `None` for the root.
    pub parent: Option<NodeId>,
    /// Element type, such as `div`.
    pub node_type: String,
    pub id: Option<String>,
    pub classes: Vec<String>,
    pub callbacks: Vec<(EventFilter, Callback)>,
    pub tab_index: Option<TabIndex>,
    pub draggable: bool,
}

/// A DOM tree stored as an arena; node `0` is the root and nodes appear in document order.
#[derive(Clone, Debug)]
pub struct Dom {
    pub arena: Vec<NodeData>,
}

impl NodeData {
    /// A node of the given element type with no parent, id, class or marker.
    pub fn new(node_type: String) -> (r: NodeData)
        ensures
            r.parent.is_none(),
            r.node_type@ == node_type@,
            r.id.is_none(),
            r.classes@.len() == 0,
            r.callbacks@.len() == 0,
            r.tab_index.is_none(),
            !r.draggable,
    {
        NodeData {
            parent: None,
            node_type,
            id: None,
            classes: Vec::new(),
            callbacks: Vec::new(),
            tab_index: None,
            draggable: false,
        }
    }
}

impl Dom {
    /// Every node but the root has a parent that comes before it in the arena.
    pub open spec fn wf(&self) -> bool {
        &&& self.arena@.len() > 0
        &&& self.arena@[0].parent.is_none()
        &&& forall|i: int|
            0 < i < self.arena@.len() ==> {
                let p = #[trigger] self.arena@[i].parent;
                p.is_some() && p.unwrap() < i
            }
    }

    /// A DOM that holds only a root of the given element type.
    pub fn new(node_type: String) -> (r: Dom)
        ensures
            r.wf(),
            r.arena@.len() == 1,
            r.arena@[0].node_type@ == node_type@,
            r.arena@[0].classes@.len() == 0,
            r.arena@[0].id.is_none(),
    {
        let root = NodeData::new(node_type);
        let mut arena = Vec::new();
        arena.push(root);
        Dom { arena }
    }

    /// Appends `node` as the last child of `parent` and returns its id.
    pub fn add_child(&mut self, parent: NodeId, node: NodeData) -> (r: NodeId)
        requires
            old(self).wf(),
            parent < old(self).arena@.len(),
        ensures
            final(self).wf(),
            r == old(self).arena@.len(),
            final(self).arena@ == old(self).arena@.push((NodeData { parent: Some(parent), ..node })),
    {
        let id = self.arena.len();
        let mut node = node;
        node.parent = Some(parent);
        self.arena.push(node);
        id
    }
}

} // verus!
