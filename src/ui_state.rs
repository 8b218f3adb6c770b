use vstd::prelude::*;
use std::collections::BTreeMap;
use crate::dom::{Callback, Dom, EventFilter, FilterClass, HoverGroup, NodeData, NodeId, TabIndex, TagId};

verus! {

broadcast use vstd::std_specs::btree::group_btree_axioms, vstd::laws_cmp::group_laws_cmp;

/// Source of tag identities: a counter that only moves forward, so no tag is handed out twice.
#[derive(Debug)]
pub struct TagAllocator {
    next: u64,
}

impl TagAllocator {
    /// The tag that the allocator hands out next.
    pub closed spec fn peek(&self) -> u64 {
        self.next
    }

    /// An allocator whose first tag is 1.
    pub fn new() -> (r: TagAllocator)
        ensures
            r.peek() == 1,
    {
        TagAllocator { next: 1 }
    }

    /// The tag that the allocator hands out next, without handing it out.
    pub fn next_tag_value(&self) -> (r: u64)
        ensures
            r == self.peek(),
    {
        self.next
    }

    /// Hands out a fresh tag.
    pub fn new_tag_id(&mut self) -> (r: TagId)
        requires
            old(self).peek() < u64::MAX,
        ensures
            r == old(self).peek(),
            final(self).peek() == old(self).peek() + 1,
    {
        let r = self.next;
        self.next = self.next + 1;
        r
    }
}

/// The handle that a callback carries, inline or default.
pub open spec fn callback_handle(c: Callback) -> u64 {
    match c {
        Callback::Inline(h) => h,
        Callback::Default(h) => h,
    }
}

pub open spec fn is_default_callback(c: Callback) -> bool {
    c is Default
}

/// The callbacks of `cbs` of category `class` that are default callbacks (`default`) or
/// inline ones (`!default`), by event code; a later callback for an event replaces an
/// earlier one.
pub open spec fn filtered(cbs: Seq<(EventFilter, Callback)>, class: FilterClass, default: bool) -> Map<u32, u64>
    decreases cbs.len(),
{
    if cbs.len() == 0 {
        Map::empty()
    } else {
        let m = filtered(cbs.drop_last(), class, default);
        let (f, c) = cbs.last();
        if f.class == class && is_default_callback(c) == default {
            m.insert(f.event, callback_handle(c))
        } else {
            m
        }
    }
}

/// Whether the node is hit-tested: it has a regular callback, a tab index or is draggable.
pub open spec fn needs_tag(n: NodeData) -> bool {
    ||| !filtered(n.callbacks@, FilterClass::Regular, false).is_empty()
    ||| !filtered(n.callbacks@, FilterClass::Regular, true).is_empty()
    ||| n.tab_index.is_some()
    ||| n.draggable
}

/// How many of the first `i` nodes need a tag.
pub open spec fn count_tagged(nodes: Seq<NodeData>, i: int) -> nat
    decreases i,
{
    if i <= 0 {
        0
    } else {
        count_tagged(nodes, i - 1) + if needs_tag(nodes[i - 1]) {
            1nat
        } else {
            0nat
        }
    }
}

/// The views of the inner maps of a map of maps.
pub open spec fn inner_view<K>(m: Map<K, BTreeMap<u32, u64>>) -> Map<K, Map<u32, u64>> {
    Map::new(|k: K| m.contains_key(k), |k: K| m[k]@)
}

/// For each of the first `upto` nodes with callbacks of the given kind, those callbacks.
pub open spec fn node_keyed(nodes: Seq<NodeData>, class: FilterClass, default: bool, upto: int) -> Map<NodeId, Map<u32, u64>> {
    Map::new(
        |n: NodeId| n < upto && !filtered(nodes[n as int].callbacks@, class, default).is_empty(),
        |n: NodeId| filtered(nodes[n as int].callbacks@, class, default),
    )
}

/// For each tag whose node has regular callbacks of the given kind, those callbacks.
pub open spec fn tag_keyed(nodes: Seq<NodeData>, tags: Map<TagId, NodeId>, default: bool) -> Map<TagId, Map<u32, u64>> {
    Map::new(
        |t: TagId| tags.contains_key(t) && !filtered(nodes[tags[t] as int].callbacks@, FilterClass::Regular, default).is_empty(),
        |t: TagId| filtered(nodes[tags[t] as int].callbacks@, FilterClass::Regular, default),
    )
}

/// The tag registry of one frame: which nodes are hit-testable under which tag, and which
/// callbacks and markers belong to each tag or node.
#[derive(Debug)]
pub struct UiState {
    /// The DOM the registry was built from.
    pub dom: Dom,
    /// Inline regular callbacks of each tagged node, by event code.
    pub tag_ids_to_callbacks: BTreeMap<TagId, BTreeMap<u32, u64>>,
    /// Default regular callbacks of each tagged node, by event code.
    pub tag_ids_to_default_callbacks: BTreeMap<TagId, BTreeMap<u32, u64>>,
    pub tab_index_tags: BTreeMap<TagId, (NodeId, TabIndex)>,
    pub draggable_tags: BTreeMap<TagId, NodeId>,
    pub tag_ids_to_node_ids: BTreeMap<TagId, NodeId>,
    /// One node has at most one tag; one tag can appear in several maps.
    pub node_ids_to_tag_ids: BTreeMap<NodeId, TagId>,
    /// Tags of the nodes that restyle on `:hover` or `:active`.
    pub tag_ids_to_hover_active_states: BTreeMap<TagId, (NodeId, HoverGroup)>,
    /// Callbacks that fire when a node is *not* hovered or focused; they need no tag.
    pub not_callbacks: BTreeMap<NodeId, BTreeMap<u32, u64>>,
    pub not_default_callbacks: BTreeMap<NodeId, BTreeMap<u32, u64>>,
    /// Callbacks on window events, keyed by node.
    pub window_callbacks: BTreeMap<NodeId, BTreeMap<u32, u64>>,
    pub window_default_callbacks: BTreeMap<NodeId, BTreeMap<u32, u64>>,
    /// Callbacks on desktop events, keyed by node.
    pub desktop_callbacks: BTreeMap<NodeId, BTreeMap<u32, u64>>,
    pub desktop_default_callbacks: BTreeMap<NodeId, BTreeMap<u32, u64>>,
}

/// The callbacks of `cbs` of one kind, as a map.
fn collect_callbacks(cbs: &Vec<(EventFilter, Callback)>, class: FilterClass, default: bool) -> (r: BTreeMap<u32, u64>)
    ensures
        r@ == filtered(cbs@, class, default),
{
    let mut m: BTreeMap<u32, u64> = BTreeMap::new();
    let mut k: usize = 0;
    while k < cbs.len()
        invariant
            k <= cbs@.len(),
            m@ == filtered(cbs@.take(k as int), class, default),
        decreases cbs@.len() - k,
    {
        let (f, c) = cbs[k];
        proof {
            assert(cbs@.take(k + 1).drop_last() =~= cbs@.take(k as int));
        }
        let (dflt, handle) = match c {
            Callback::Inline(h) => (false, h),
            Callback::Default(h) => (true, h),
        };
        if f.class == class && dflt == default {
            m.insert(f.event, handle);
        }
        k = k + 1;
    }
    proof {
        assert(cbs@.take(k as int) =~= cbs@);
    }
    m
}


proof fn lemma_count_tagged_bound(nodes: Seq<NodeData>, i: int)
    requires
        0 <= i,
    ensures
        count_tagged(nodes, i) <= i,
    decreases i,
{
    if i > 0 {
        lemma_count_tagged_bound(nodes, i - 1);
    }
}

/// Records the callbacks of one kind of node `i` in a map keyed by node.
fn route_by_node(
    map: &mut BTreeMap<NodeId, BTreeMap<u32, u64>>,
    nodes: &Vec<NodeData>,
    i: usize,
    class: FilterClass,
    default: bool,
)
    requires
        i < nodes@.len(),
        inner_view(old(map)@) == node_keyed(nodes@, class, default, i as int),
    ensures
        inner_view(final(map)@) == node_keyed(nodes@, class, default, i + 1),
{
    let m = collect_callbacks(&nodes[i].callbacks, class, default);
    let ghost before = map@;
    if !m.is_empty() {
        map.insert(i, m);
        assert(map@ == before.insert(i, m));
        assert(inner_view(map@) =~= inner_view(before).insert(i, m@));
    } else {
        assert(map@ == before);
    }
    assert(inner_view(map@) =~= node_keyed(nodes@, class, default, i + 1));
}

impl UiState {
    /// Tag to node and node to tag are inverse maps.
    pub open spec fn wf(&self) -> bool {
        &&& forall|n: NodeId|
            #[trigger] self.node_ids_to_tag_ids@.contains_key(n) ==> {
                let t = self.node_ids_to_tag_ids@[n];
                self.tag_ids_to_node_ids@.contains_key(t) && self.tag_ids_to_node_ids@[t] == n
            }
        &&& forall|t: TagId|
            #[trigger] self.tag_ids_to_node_ids@.contains_key(t) ==> {
                let n = self.tag_ids_to_node_ids@[t];
                self.node_ids_to_tag_ids@.contains_key(n) && self.node_ids_to_tag_ids@[n] == t
            }
        &&& forall|t: TagId|
            #[trigger] self.tag_ids_to_hover_active_states@.contains_key(t) ==> {
                &&& self.tag_ids_to_node_ids@.contains_key(t)
                &&& self.tag_ids_to_node_ids@[t] == self.tag_ids_to_hover_active_states@[t].0
            }
    }

    /// Every tag of the registry is below `next`, so an allocator at `next` hands out fresh tags.
    pub open spec fn tags_below(&self, next: u64) -> bool {
        forall|t: TagId| #[trigger] self.tag_ids_to_node_ids@.contains_key(t) ==> t < next
    }

    /// `self` and `other` agree on everything but the tags and the hover states.
    pub open spec fn same_but_tags(&self, other: &UiState) -> bool {
        &&& self.dom == other.dom
        &&& self.tag_ids_to_callbacks == other.tag_ids_to_callbacks
        &&& self.tag_ids_to_default_callbacks == other.tag_ids_to_default_callbacks
        &&& self.tab_index_tags == other.tab_index_tags
        &&& self.draggable_tags == other.draggable_tags
        &&& self.not_callbacks == other.not_callbacks
        &&& self.not_default_callbacks == other.not_default_callbacks
        &&& self.window_callbacks == other.window_callbacks
        &&& self.window_default_callbacks == other.window_default_callbacks
        &&& self.desktop_callbacks == other.desktop_callbacks
        &&& self.desktop_default_callbacks == other.desktop_default_callbacks
    }

    /// `self` is the registry of `nodes` with tags handed out from `start` on: every node
    /// that needs a tag has one, in document order, and each callback or marker sits in the
    /// map of its kind.
    pub open spec fn built_from(&self, nodes: Seq<NodeData>, start: u64) -> bool {
        let tags = self.tag_ids_to_node_ids@;
        &&& self.wf()
        &&& self.node_ids_to_tag_ids@ == Map::new(
            |n: NodeId| n < nodes.len() && needs_tag(nodes[n as int]),
            |n: NodeId| (start + count_tagged(nodes, n as int)) as TagId,
        )
        &&& inner_view(self.tag_ids_to_callbacks@) == tag_keyed(nodes, tags, false)
        &&& inner_view(self.tag_ids_to_default_callbacks@) == tag_keyed(nodes, tags, true)
        &&& self.tab_index_tags@ == Map::new(
            |t: TagId| tags.contains_key(t) && nodes[tags[t] as int].tab_index.is_some(),
            |t: TagId| (tags[t], nodes[tags[t] as int].tab_index.unwrap()),
        )
        &&& self.draggable_tags@ == Map::new(
            |t: TagId| tags.contains_key(t) && nodes[tags[t] as int].draggable,
            |t: TagId| tags[t],
        )
        &&& self.tag_ids_to_hover_active_states@.is_empty()
        &&& inner_view(self.not_callbacks@) == node_keyed(nodes, FilterClass::Not, false, nodes.len() as int)
        &&& inner_view(self.not_default_callbacks@) == node_keyed(nodes, FilterClass::Not, true, nodes.len() as int)
        &&& inner_view(self.window_callbacks@) == node_keyed(nodes, FilterClass::Window, false, nodes.len() as int)
        &&& inner_view(self.window_default_callbacks@) == node_keyed(nodes, FilterClass::Window, true, nodes.len() as int)
        &&& inner_view(self.desktop_callbacks@) == node_keyed(nodes, FilterClass::Desktop, false, nodes.len() as int)
        &&& inner_view(self.desktop_default_callbacks@) == node_keyed(nodes, FilterClass::Desktop, true, nodes.len() as int)
    }

    /// Builds the tag registry of `dom`, taking tags from `alloc`.
    pub fn from_dom(dom: Dom, alloc: &mut TagAllocator) -> (r: UiState)
        requires
            old(alloc).peek() + dom.arena@.len() <= u64::MAX,
        ensures
            r.built_from(dom.arena@, old(alloc).peek()),
            r.tags_below(final(alloc).peek()),
            r.dom == dom,
            final(alloc).peek() == old(alloc).peek() + count_tagged(dom.arena@, dom.arena@.len() as int),
    {
        let ghost start = alloc.peek();
        let ghost nodes = dom.arena@;
        let mut tag_ids_to_callbacks: BTreeMap<TagId, BTreeMap<u32, u64>> = BTreeMap::new();
        let mut tag_ids_to_default_callbacks: BTreeMap<TagId, BTreeMap<u32, u64>> = BTreeMap::new();
        let mut tab_index_tags: BTreeMap<TagId, (NodeId, TabIndex)> = BTreeMap::new();
        let mut draggable_tags: BTreeMap<TagId, NodeId> = BTreeMap::new();
        let mut tag_ids_to_node_ids: BTreeMap<TagId, NodeId> = BTreeMap::new();
        let mut node_ids_to_tag_ids: BTreeMap<NodeId, TagId> = BTreeMap::new();
        let mut not_callbacks: BTreeMap<NodeId, BTreeMap<u32, u64>> = BTreeMap::new();
        let mut not_default_callbacks: BTreeMap<NodeId, BTreeMap<u32, u64>> = BTreeMap::new();
        let mut window_callbacks: BTreeMap<NodeId, BTreeMap<u32, u64>> = BTreeMap::new();
        let mut window_default_callbacks: BTreeMap<NodeId, BTreeMap<u32, u64>> = BTreeMap::new();
        let mut desktop_callbacks: BTreeMap<NodeId, BTreeMap<u32, u64>> = BTreeMap::new();
        let mut desktop_default_callbacks: BTreeMap<NodeId, BTreeMap<u32, u64>> = BTreeMap::new();
        proof {
            assert(inner_view(tag_ids_to_callbacks@) =~= tag_keyed(nodes, tag_ids_to_node_ids@, false));
            assert(inner_view(tag_ids_to_default_callbacks@) =~= tag_keyed(nodes, tag_ids_to_node_ids@, true));
            assert(inner_view(not_callbacks@) =~= node_keyed(nodes, FilterClass::Not, false, 0));
            assert(inner_view(not_default_callbacks@) =~= node_keyed(nodes, FilterClass::Not, true, 0));
            assert(inner_view(window_callbacks@) =~= node_keyed(nodes, FilterClass::Window, false, 0));
            assert(inner_view(window_default_callbacks@) =~= node_keyed(nodes, FilterClass::Window, true, 0));
            assert(inner_view(desktop_callbacks@) =~= node_keyed(nodes, FilterClass::Desktop, false, 0));
            assert(inner_view(desktop_default_callbacks@) =~= node_keyed(nodes, FilterClass::Desktop, true, 0));
        }
        let mut i: usize = 0;
        while i < dom.arena.len()
            invariant
                i <= nodes.len(),
                nodes == dom.arena@,
                start + nodes.len() <= u64::MAX,
                alloc.peek() == start + count_tagged(nodes, i as int),
                node_ids_to_tag_ids@ == Map::new(
                    |n: NodeId| n < i && needs_tag(nodes[n as int]),
                    |n: NodeId| (start + count_tagged(nodes, n as int)) as TagId,
                ),
                forall|t: TagId| #[trigger] tag_ids_to_node_ids@.contains_key(t) ==> t < alloc.peek()
                    && tag_ids_to_node_ids@[t] < i,
                forall|n: NodeId|
                    #[trigger] node_ids_to_tag_ids@.contains_key(n) ==> {
                        let t = node_ids_to_tag_ids@[n];
                        tag_ids_to_node_ids@.contains_key(t) && tag_ids_to_node_ids@[t] == n
                    },
                forall|t: TagId|
                    #[trigger] tag_ids_to_node_ids@.contains_key(t) ==> {
                        let n = tag_ids_to_node_ids@[t];
                        node_ids_to_tag_ids@.contains_key(n) && node_ids_to_tag_ids@[n] == t
                    },
                inner_view(tag_ids_to_callbacks@) == tag_keyed(nodes, tag_ids_to_node_ids@, false),
                inner_view(tag_ids_to_default_callbacks@) == tag_keyed(nodes, tag_ids_to_node_ids@, true),
                tab_index_tags@ == Map::new(
                    |t: TagId| tag_ids_to_node_ids@.contains_key(t) && nodes[tag_ids_to_node_ids@[t] as int].tab_index.is_some(),
                    |t: TagId| (tag_ids_to_node_ids@[t], nodes[tag_ids_to_node_ids@[t] as int].tab_index.unwrap()),
                ),
                draggable_tags@ == Map::new(
                    |t: TagId| tag_ids_to_node_ids@.contains_key(t) && nodes[tag_ids_to_node_ids@[t] as int].draggable,
                    |t: TagId| tag_ids_to_node_ids@[t],
                ),
                inner_view(not_callbacks@) == node_keyed(nodes, FilterClass::Not, false, i as int),
                inner_view(not_default_callbacks@) == node_keyed(nodes, FilterClass::Not, true, i as int),
                inner_view(window_callbacks@) == node_keyed(nodes, FilterClass::Window, false, i as int),
                inner_view(window_default_callbacks@) == node_keyed(nodes, FilterClass::Window, true, i as int),
                inner_view(desktop_callbacks@) == node_keyed(nodes, FilterClass::Desktop, false, i as int),
                inner_view(desktop_default_callbacks@) == node_keyed(nodes, FilterClass::Desktop, true, i as int),
            decreases nodes.len() - i,
        {
            let node = &dom.arena[i];
            let regular = collect_callbacks(&node.callbacks, FilterClass::Regular, false);
            let regular_default = collect_callbacks(&node.callbacks, FilterClass::Regular, true);
            if !regular.is_empty() || !regular_default.is_empty() || node.tab_index.is_some() || node.draggable {
                proof {
                    lemma_count_tagged_bound(nodes, i as int);
                }
                let tag = alloc.new_tag_id();
                let ghost old_tags = tag_ids_to_node_ids@;
                let ghost old_nodes = node_ids_to_tag_ids@;
                assert(!old_tags.contains_key(tag));
                assert(!old_nodes.contains_key(i));
                tag_ids_to_node_ids.insert(tag, i);
                node_ids_to_tag_ids.insert(i, tag);
                let ghost tags = tag_ids_to_node_ids@;
                assert(tags == old_tags.insert(tag, i));
                let ghost before_cb = tag_ids_to_callbacks@;
                let ghost before_dcb = tag_ids_to_default_callbacks@;
                if !regular.is_empty() {
                    tag_ids_to_callbacks.insert(tag, regular);
                    assert(tag_ids_to_callbacks@ == before_cb.insert(tag, regular));
                    assert(inner_view(tag_ids_to_callbacks@) =~= inner_view(before_cb).insert(tag, regular@));
                    assert(tag_keyed(nodes, tags, false) =~= tag_keyed(nodes, old_tags, false).insert(tag, regular@));
                } else {
                    assert(tag_keyed(nodes, tags, false) =~= tag_keyed(nodes, old_tags, false));
                }
                if !regular_default.is_empty() {
                    tag_ids_to_default_callbacks.insert(tag, regular_default);
                    assert(tag_ids_to_default_callbacks@ == before_dcb.insert(tag, regular_default));
                    assert(inner_view(tag_ids_to_default_callbacks@) =~= inner_view(before_dcb).insert(
                        tag,
                        regular_default@,
                    ));
                    assert(tag_keyed(nodes, tags, true) =~= tag_keyed(nodes, old_tags, true).insert(
                        tag,
                        regular_default@,
                    ));
                } else {
                    assert(tag_keyed(nodes, tags, true) =~= tag_keyed(nodes, old_tags, true));
                }
                match node.tab_index {
                    Some(ti) => {
                        tab_index_tags.insert(tag, (i, ti));
                    },
                    None => {},
                }
                if node.draggable {
                    draggable_tags.insert(tag, i);
                }
                proof {
                    assert(inner_view(tag_ids_to_callbacks@) =~= tag_keyed(nodes, tags, false));
                    assert(inner_view(tag_ids_to_default_callbacks@) =~= tag_keyed(nodes, tags, true));
                    assert(tab_index_tags@ =~= Map::new(
                        |t: TagId| tags.contains_key(t) && nodes[tags[t] as int].tab_index.is_some(),
                        |t: TagId| (tags[t], nodes[tags[t] as int].tab_index.unwrap()),
                    ));
                    assert(draggable_tags@ =~= Map::new(
                        |t: TagId| tags.contains_key(t) && nodes[tags[t] as int].draggable,
                        |t: TagId| tags[t],
                    ));
                    assert(node_ids_to_tag_ids@ =~= Map::new(
                        |n: NodeId| n < i + 1 && needs_tag(nodes[n as int]),
                        |n: NodeId| (start + count_tagged(nodes, n as int)) as TagId,
                    ));
                }
            } else {
                proof {
                    assert(node_ids_to_tag_ids@ =~= Map::new(
                        |n: NodeId| n < i + 1 && needs_tag(nodes[n as int]),
                        |n: NodeId| (start + count_tagged(nodes, n as int)) as TagId,
                    ));
                }
            }
            route_by_node(&mut not_callbacks, &dom.arena, i, FilterClass::Not, false);
            route_by_node(&mut not_default_callbacks, &dom.arena, i, FilterClass::Not, true);
            route_by_node(&mut window_callbacks, &dom.arena, i, FilterClass::Window, false);
            route_by_node(&mut window_default_callbacks, &dom.arena, i, FilterClass::Window, true);
            route_by_node(&mut desktop_callbacks, &dom.arena, i, FilterClass::Desktop, false);
            route_by_node(&mut desktop_default_callbacks, &dom.arena, i, FilterClass::Desktop, true);
            i = i + 1;
        }
        UiState {
            dom,
            tag_ids_to_callbacks,
            tag_ids_to_default_callbacks,
            tab_index_tags,
            draggable_tags,
            tag_ids_to_node_ids,
            node_ids_to_tag_ids,
            tag_ids_to_hover_active_states: BTreeMap::new(),
            not_callbacks,
            not_default_callbacks,
            window_callbacks,
            window_default_callbacks,
            desktop_callbacks,
            desktop_default_callbacks,
        }
    }

    /// Gives each node of `hover_nodes` a tag (its own if it has one, else a fresh one from
    /// `alloc`) and records its hover group under that tag; a node listed twice keeps its
    /// last group.
    pub fn create_tags_for_hover_nodes(&mut self, hover_nodes: &Vec<(NodeId, HoverGroup)>, alloc: &mut TagAllocator)
        requires
            old(self).wf(),
            old(self).tags_below(old(alloc).peek()),
            old(alloc).peek() + hover_nodes@.len() <= u64::MAX,
        ensures
            final(self).wf(),
            final(self).same_but_tags(old(self)),
            final(self).tags_below(final(alloc).peek()),
            old(alloc).peek() <= final(alloc).peek() <= old(alloc).peek() + hover_nodes@.len(),
            forall|n: NodeId|
                #[trigger] old(self).node_ids_to_tag_ids@.contains_key(n) ==> final(self).node_ids_to_tag_ids@.contains_key(n)
                    && final(self).node_ids_to_tag_ids@[n] == old(self).node_ids_to_tag_ids@[n],
            forall|n: NodeId|
                #[trigger] final(self).node_ids_to_tag_ids@.contains_key(n) <==> old(self).node_ids_to_tag_ids@.contains_key(n)
                    || hover_group_of(hover_nodes@, n).is_some(),
            forall|t: TagId|
                #[trigger] final(self).tag_ids_to_node_ids@.contains_key(t) && !old(self).tag_ids_to_node_ids@.contains_key(t)
                    ==> old(alloc).peek() <= t,
            forall|n: NodeId|
                #[trigger] hover_group_of(hover_nodes@, n).is_some() ==> {
                    let t = final(self).node_ids_to_tag_ids@[n];
                    final(self).tag_ids_to_hover_active_states@.contains_key(t)
                        && final(self).tag_ids_to_hover_active_states@[t] == (n, hover_group_of(hover_nodes@, n).unwrap())
                },
            forall|t: TagId|
                #[trigger] final(self).tag_ids_to_hover_active_states@.contains_key(t) ==> {
                    ||| hover_group_of(hover_nodes@, final(self).tag_ids_to_node_ids@[t]).is_some()
                    ||| old(self).tag_ids_to_hover_active_states@.contains_key(t)
                        && final(self).tag_ids_to_hover_active_states@[t] == old(self).tag_ids_to_hover_active_states@[t]
                        && hover_group_of(hover_nodes@, old(self).tag_ids_to_hover_active_states@[t].0).is_none()
                },
    {
        let ghost start = alloc.peek();
        let ghost orig = *self;
        let mut k: usize = 0;
        while k < hover_nodes.len()
            invariant
                k <= hover_nodes@.len(),
                start + hover_nodes@.len() <= u64::MAX,
                orig.wf(),
                self.wf(),
                self.same_but_tags(&orig),
                self.tags_below(alloc.peek()),
                start <= alloc.peek() <= start + k,
                forall|n: NodeId|
                    #[trigger] orig.node_ids_to_tag_ids@.contains_key(n) ==> self.node_ids_to_tag_ids@.contains_key(n)
                        && self.node_ids_to_tag_ids@[n] == orig.node_ids_to_tag_ids@[n],
                forall|t: TagId|
                    #[trigger] orig.tag_ids_to_node_ids@.contains_key(t) ==> self.tag_ids_to_node_ids@.contains_key(t)
                        && self.tag_ids_to_node_ids@[t] == orig.tag_ids_to_node_ids@[t],
                forall|n: NodeId|
                    #[trigger] self.node_ids_to_tag_ids@.contains_key(n) <==> orig.node_ids_to_tag_ids@.contains_key(n)
                        || hover_group_of(hover_nodes@.take(k as int), n).is_some(),
                forall|t: TagId|
                    #[trigger] self.tag_ids_to_node_ids@.contains_key(t) && !orig.tag_ids_to_node_ids@.contains_key(t)
                        ==> start <= t,
                forall|n: NodeId|
                    #[trigger] hover_group_of(hover_nodes@.take(k as int), n).is_some() ==> {
                        let t = self.node_ids_to_tag_ids@[n];
                        self.tag_ids_to_hover_active_states@.contains_key(t)
                            && self.tag_ids_to_hover_active_states@[t] == (n, hover_group_of(hover_nodes@.take(k as int), n).unwrap())
                    },
                forall|t: TagId|
                    #[trigger] self.tag_ids_to_hover_active_states@.contains_key(t) ==> {
                        ||| hover_group_of(hover_nodes@.take(k as int), self.tag_ids_to_node_ids@[t]).is_some()
                        ||| orig.tag_ids_to_hover_active_states@.contains_key(t)
                            && self.tag_ids_to_hover_active_states@[t] == orig.tag_ids_to_hover_active_states@[t]
                            && hover_group_of(hover_nodes@.take(k as int), orig.tag_ids_to_hover_active_states@[t].0).is_none()
                    },
            decreases hover_nodes@.len() - k,
        {
            let (n, g) = hover_nodes[k];
            let ghost prev = hover_nodes@.take(k as int);
            let ghost next = hover_nodes@.take(k + 1);
            proof {
                assert(next.drop_last() =~= prev);
                assert(next.last() == (n, g));
            }
            let ghost before = *self;
            let tag = match self.node_ids_to_tag_ids.get(&n) {
                Some(t) => *t,
                None => alloc.new_tag_id(),
            };
            proof {
                if !before.node_ids_to_tag_ids@.contains_key(n) {
                    assert(!before.tag_ids_to_node_ids@.contains_key(tag));
                }
            }
            self.node_ids_to_tag_ids.insert(n, tag);
            self.tag_ids_to_node_ids.insert(tag, n);
            self.tag_ids_to_hover_active_states.insert(tag, (n, g));
            proof {
                assert forall|m: NodeId| #[trigger] hover_group_of(next, m) == if m == n {
                    Some(g)
                } else {
                    hover_group_of(prev, m)
                } by {}
                assert forall|t: TagId|
                    #[trigger] self.tag_ids_to_hover_active_states@.contains_key(t) implies {
                        ||| hover_group_of(next, self.tag_ids_to_node_ids@[t]).is_some()
                        ||| orig.tag_ids_to_hover_active_states@.contains_key(t)
                            && self.tag_ids_to_hover_active_states@[t] == orig.tag_ids_to_hover_active_states@[t]
                            && hover_group_of(next, orig.tag_ids_to_hover_active_states@[t].0).is_none()
                    } by {
                    if t != tag {
                        if hover_group_of(prev, before.tag_ids_to_node_ids@[t]).is_none() {
                            let m = orig.tag_ids_to_hover_active_states@[t].0;
                            if m == n {
                                assert(orig.tag_ids_to_node_ids@[t] == m);
                                assert(orig.node_ids_to_tag_ids@[m] == t);
                            }
                        }
                    }
                }
            }
            k = k + 1;
        }
        proof {
            assert(hover_nodes@.take(k as int) =~= hover_nodes@);
        }
    }
}

/// The group of the last entry of `hover` for node `n`, if any.
pub open spec fn hover_group_of(hover: Seq<(NodeId, HoverGroup)>, n: NodeId) -> Option<HoverGroup>
    decreases hover.len(),
{
    if hover.len() == 0 {
        None
    } else if hover.last().0 == n {
        Some(hover.last().1)
    } else {
        hover_group_of(hover.drop_last(), n)
    }
}


/// Why a registry could not be built.
#[derive(Clone, Copy, Debug, PartialEq, Eq, Structural)]
pub enum RuntimeError {
    /// The window that the DOM was laid out for does not exist.
    WindowIndexError,
}

impl UiState {
    /// Builds the registry of the DOM laid out for a window, or fails where no window was
    /// found (`None`).
    pub fn from_app_state(window_dom: Option<Dom>, alloc: &mut TagAllocator) -> (r: Result<UiState, RuntimeError>)
        requires
            window_dom.is_some() ==> old(alloc).peek() + window_dom.unwrap().arena@.len() <= u64::MAX,
        ensures
            window_dom.is_none() <==> r == Err::<UiState, RuntimeError>(RuntimeError::WindowIndexError),
            window_dom.is_none() ==> final(alloc).peek() == old(alloc).peek(),
            r.is_ok() ==> r.unwrap().built_from(window_dom.unwrap().arena@, old(alloc).peek())
                && r.unwrap().dom == window_dom.unwrap() && r.unwrap().tags_below(final(alloc).peek()),
    {
        match window_dom {
            Some(dom) => Ok(UiState::from_dom(dom, alloc)),
            None => Err(RuntimeError::WindowIndexError),
        }
    }
}

/// Tag to node and node to tag are inverse: a tag names a node exactly when the node's tag
/// is that tag.
pub proof fn lemma_tags_bijective(s: UiState, t: TagId, n: NodeId)
    requires
        s.wf(),
    ensures
        (s.tag_ids_to_node_ids@.contains_key(t) && s.tag_ids_to_node_ids@[t] == n) <==> (
        s.node_ids_to_tag_ids@.contains_key(n) && s.node_ids_to_tag_ids@[n] == t),
{
    if s.tag_ids_to_node_ids@.contains_key(t) {
        assert(s.node_ids_to_tag_ids@.contains_key(s.tag_ids_to_node_ids@[t]));
    }
    if s.node_ids_to_tag_ids@.contains_key(n) {
        assert(s.tag_ids_to_node_ids@.contains_key(s.node_ids_to_tag_ids@[n]));
    }
}

proof fn lemma_no_class_filtered_empty(cbs: Seq<(EventFilter, Callback)>, class: FilterClass, default: bool)
    requires
        forall|k: int| 0 <= k < cbs.len() ==> (#[trigger] cbs[k]).0.class != class,
    ensures
        filtered(cbs, class, default) == Map::<u32, u64>::empty(),
    decreases cbs.len(),
{
    if cbs.len() > 0 {
        lemma_no_class_filtered_empty(cbs.drop_last(), class, default);
    }
}

/// A node whose only callbacks are negated filters, with no tab index and not draggable,
/// gets no tag and appears in no map keyed by tag.
pub proof fn lemma_negated_only_untagged(s: UiState, nodes: Seq<NodeData>, start: u64, n: NodeId)
    requires
        s.built_from(nodes, start),
        n < nodes.len(),
        forall|k: int| 0 <= k < nodes[n as int].callbacks@.len() ==> (#[trigger] nodes[n as int].callbacks@[k]).0.class
            == FilterClass::Not,
        nodes[n as int].tab_index.is_none(),
        !nodes[n as int].draggable,
    ensures
        !s.node_ids_to_tag_ids@.contains_key(n),
        forall|t: TagId| #[trigger] s.tag_ids_to_node_ids@.contains_key(t) ==> s.tag_ids_to_node_ids@[t] != n,
        forall|t: TagId| #[trigger] s.tag_ids_to_callbacks@.contains_key(t) ==> s.tag_ids_to_node_ids@[t] != n,
        forall|t: TagId|
            #[trigger] s.tag_ids_to_default_callbacks@.contains_key(t) ==> s.tag_ids_to_node_ids@[t] != n,
        forall|t: TagId| #[trigger] s.tab_index_tags@.contains_key(t) ==> s.tab_index_tags@[t].0 != n,
        forall|t: TagId| #[trigger] s.draggable_tags@.contains_key(t) ==> s.draggable_tags@[t] != n,
        forall|t: TagId|
            #[trigger] s.tag_ids_to_hover_active_states@.contains_key(t) ==> s.tag_ids_to_hover_active_states@[t].0 != n,
{
    let cbs = nodes[n as int].callbacks@;
    lemma_no_class_filtered_empty(cbs, FilterClass::Regular, false);
    lemma_no_class_filtered_empty(cbs, FilterClass::Regular, true);
    assert(!needs_tag(nodes[n as int]));
    assert(!s.node_ids_to_tag_ids@.contains_key(n));
    assert forall|t: TagId| #[trigger] s.tag_ids_to_node_ids@.contains_key(t) implies s.tag_ids_to_node_ids@[t] != n by {
        assert(s.node_ids_to_tag_ids@.contains_key(s.tag_ids_to_node_ids@[t]));
    }
    assert forall|t: TagId| #[trigger] s.tag_ids_to_callbacks@.contains_key(t) implies s.tag_ids_to_node_ids@[t] != n by {
        assert(inner_view(s.tag_ids_to_callbacks@).contains_key(t));
        assert(s.tag_ids_to_node_ids@.contains_key(t));
    }
    assert forall|t: TagId| #[trigger] s.tag_ids_to_default_callbacks@.contains_key(t) implies s.tag_ids_to_node_ids@[t]
        != n by {
        assert(inner_view(s.tag_ids_to_default_callbacks@).contains_key(t));
        assert(s.tag_ids_to_node_ids@.contains_key(t));
    }
    assert forall|t: TagId| #[trigger] s.tab_index_tags@.contains_key(t) implies s.tab_index_tags@[t].0 != n by {
        assert(s.tag_ids_to_node_ids@.contains_key(t));
    }
    assert forall|t: TagId| #[trigger] s.draggable_tags@.contains_key(t) implies s.draggable_tags@[t] != n by {
        assert(s.tag_ids_to_node_ids@.contains_key(t));
    }
}

} // verus!
