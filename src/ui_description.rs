use vstd::prelude::*;
use std::collections::BTreeMap;
use crate::dom::{Dom, NodeData, NodeId};

verus! {

broadcast use vstd::std_specs::btree::group_btree_axioms, vstd::laws_cmp::group_laws_cmp;

/// One step of a selector path: a simple selector or a combinator. A rule's selector is a
/// path read from its end: the simple selectors after the last combinator must all match the
/// node, and what precedes a combinator must match its parent or one of its ancestors.
#[derive(Clone, Debug, PartialEq, Eq)]
pub enum SelectorPart {
    /// `*`
    Global,
    /// An element type, such as `div`.
    Type(String),
    /// `.name`
    Class(String),
    /// `#name`
    Id(String),
    /// `>`: what precedes matches the parent of the node that what follows matches.
    DirectChildren,
    /// ` `: what precedes matches some ancestor of the node that what follows matches.
    Children,
}

/// One `property: value` pair.
#[derive(Clone, Debug, PartialEq, Eq)]
pub struct CssDeclaration {
    pub property: String,
    pub value: String,
}

/// A selector with the declarations it applies, in order.
#[derive(Clone, Debug, PartialEq, Eq)]
pub struct CssRule {
    pub selector: Vec<SelectorPart>,
    pub declarations: Vec<CssDeclaration>,
}

/// A parsed stylesheet: its rules in source order.
#[derive(Clone, Debug, PartialEq, Eq)]
pub struct Css {
    pub rules: Vec<CssRule>,
}

/// The declarations that apply to one node, in cascade order (the last one for a property wins).
#[derive(Clone, Debug, PartialEq, Eq)]
pub struct CssConstraintList {
    pub list: Vec<CssDeclaration>,
}

/// A node's resolved style: its paint-order level and its declarations.
#[derive(Clone, Debug, PartialEq, Eq)]
pub struct StyledNode {
    pub z_level: usize,
    pub css_constraints: CssConstraintList,
}

/// The styles of one DOM, with the shared style of nodes that no rule matched.
#[derive(Clone, Debug, PartialEq, Eq)]
pub struct UiDescription {
    /// Id of the root node of the DOM.
    pub ui_descr_root: NodeId,
    /// Style of each node that matched at least one rule.
    pub styled_nodes: BTreeMap<NodeId, StyledNode>,
    /// Style of every node that matched no rule.
    pub default_style_of_node: StyledNode,
}

/// A declaration as a pair of property and value.
pub open spec fn decl_view(d: CssDeclaration) -> (Seq<char>, Seq<char>) {
    (d.property@, d.value@)
}

pub open spec fn decls_view(s: Seq<CssDeclaration>) -> Seq<(Seq<char>, Seq<char>)> {
    s.map_values(|d: CssDeclaration| decl_view(d))
}

impl CssConstraintList {
    pub open spec fn view(&self) -> Seq<(Seq<char>, Seq<char>)> {
        decls_view(self.list@)
    }

    pub fn empty() -> (r: CssConstraintList)
        ensures
            r.view().len() == 0,
    {
        CssConstraintList { list: Vec::new() }
    }

    /// Appends the declarations of `rule`, in order.
    pub fn push_rule(&mut self, rule: &CssRule)
        ensures
            final(self).view() == old(self).view() + decls_view(rule.declarations@),
    {
        let ghost start = self.view();
        let mut k: usize = 0;
        while k < rule.declarations.len()
            invariant
                k <= rule.declarations@.len(),
                self.view() == start + decls_view(rule.declarations@.take(k as int)),
            decreases rule.declarations@.len() - k,
        {
            let d = &rule.declarations[k];
            let copy = CssDeclaration { property: d.property.clone(), value: d.value.clone() };
            let ghost before = self.list@;
            self.list.push(copy);
            proof {
                assert(decls_view(self.list@) =~= decls_view(before).push(decl_view(copy)));
                assert(rule.declarations@.take(k + 1) =~= rule.declarations@.take(k as int).push(*d));
                assert(decl_view(copy) == decl_view(*d));
                assert(decls_view(rule.declarations@.take(k + 1)) =~= decls_view(
                    rule.declarations@.take(k as int),
                ).push(decl_view(*d)));
                assert(self.view() =~= start + decls_view(rule.declarations@.take(k + 1)));
            }
            k = k + 1;
        }
        proof {
            assert(rule.declarations@.take(k as int) =~= rule.declarations@);
        }
    }

    /// The value of the last declaration of `property`, if any.
    pub fn last_value_of(&self, property: &String) -> (r: Option<String>)
        ensures
            r.is_some() == last_value(self.view(), property@).is_some(),
            r.is_some() ==> r.unwrap()@ == last_value(self.view(), property@).unwrap(),
    {
        let mut k: usize = self.list.len();
        proof {
            assert(self.view().take(k as int) =~= self.view());
        }
        while k > 0
            invariant
                k <= self.list@.len(),
                last_value(self.view(), property@) == last_value(self.view().take(k as int), property@),
            decreases k,
        {
            let d = &self.list[k - 1];
            proof {
                assert(self.view().take(k - 1) =~= self.view().take(k as int).drop_last());
            }
            if d.property == *property {
                return Some(d.value.clone());
            }
            k = k - 1;
        }
        None
    }
}

/// The value of the last declaration of `property` in `list`.
pub open spec fn last_value(list: Seq<(Seq<char>, Seq<char>)>, property: Seq<char>) -> Option<Seq<char>>
    decreases list.len(),
{
    if list.len() == 0 {
        None
    } else if list.last().0 == property {
        Some(list.last().1)
    } else {
        last_value(list.drop_last(), property)
    }
}

impl StyledNode {
    pub open spec fn is_default(&self) -> bool {
        self.z_level == 0 && self.css_constraints.view().len() == 0
    }
}

impl Default for StyledNode {
    fn default() -> (r: StyledNode)
        ensures
            r.is_default(),
    {
        StyledNode { z_level: 0, css_constraints: CssConstraintList::empty() }
    }
}


/// Whether one simple selector matches the node.
pub open spec fn part_matches(n: NodeData, p: SelectorPart) -> bool {
    match p {
        SelectorPart::Global => true,
        SelectorPart::Type(t) => n.node_type@ == t@,
        SelectorPart::Class(c) => exists|k: int| 0 <= k < n.classes@.len() && (#[trigger] n.classes@[k])@ == c@,
        SelectorPart::Id(i) => n.id.is_some() && n.id.unwrap()@ == i@,
        _ => true,
    }
}

/// The parent of node `n`, where the arena records one before `n`.
pub open spec fn parent_of(nodes: Seq<NodeData>, n: int) -> Option<NodeId> {
    if 0 <= n < nodes.len() && nodes[n].parent.is_some() && nodes[n].parent.unwrap() < n {
        nodes[n].parent
    } else {
        None
    }
}

/// Whether the selector path `sel` matches node `n` of `nodes`.
pub open spec fn path_matches(nodes: Seq<NodeData>, sel: Seq<SelectorPart>, n: int) -> bool
    decreases sel.len(), n, 0int,
{
    if sel.len() == 0 {
        true
    } else {
        match sel.last() {
            SelectorPart::DirectChildren => match parent_of(nodes, n) {
                Some(p) => path_matches(nodes, sel.drop_last(), p as int),
                None => false,
            },
            SelectorPart::Children => match parent_of(nodes, n) {
                Some(p) => ancestor_matches(nodes, sel.drop_last(), p as int),
                None => false,
            },
            _ => 0 <= n < nodes.len() && part_matches(nodes[n], sel.last()) && path_matches(
                nodes,
                sel.drop_last(),
                n,
            ),
        }
    }
}

/// Whether the selector path `sel` matches node `n` or one of its ancestors.
pub open spec fn ancestor_matches(nodes: Seq<NodeData>, sel: Seq<SelectorPart>, n: int) -> bool
    decreases sel.len(), n, 1int,
{
    path_matches(nodes, sel, n) || match parent_of(nodes, n) {
        Some(p) => ancestor_matches(nodes, sel, p as int),
        None => false,
    }
}

/// Whether the selector matches node `at` of `nodes`.
pub open spec fn selector_matches(nodes: Seq<NodeData>, at: int, sel: Seq<SelectorPart>) -> bool {
    path_matches(nodes, sel, at)
}

/// Specificity of a selector: counts of ids, classes and element types.
pub open spec fn specificity(sel: Seq<SelectorPart>) -> (nat, nat, nat)
    decreases sel.len(),
{
    if sel.len() == 0 {
        (0, 0, 0)
    } else {
        let s = specificity(sel.drop_last());
        match sel.last() {
            SelectorPart::Id(_) => (s.0 + 1, s.1, s.2),
            SelectorPart::Class(_) => (s.0, s.1 + 1, s.2),
            SelectorPart::Type(_) => (s.0, s.1, s.2 + 1),
            _ => s,
        }
    }
}

/// Whether specificity `a` is strictly greater than `b`, comparing ids, then classes, then types.
pub open spec fn more_specific(a: (nat, nat, nat), b: (nat, nat, nat)) -> bool {
    a.0 > b.0 || (a.0 == b.0 && (a.1 > b.1 || (a.1 == b.1 && a.2 > b.2)))
}

/// The first position at or after `k` in `order` whose rule is more specific than `s`.
pub open spec fn insert_pos(rules: Seq<CssRule>, order: Seq<usize>, s: (nat, nat, nat), k: int) -> int
    decreases order.len() - k,
{
    if k >= order.len() {
        order.len() as int
    } else if more_specific(specificity(rules[order[k] as int].selector@), s) {
        k
    } else {
        insert_pos(rules, order, s, k + 1)
    }
}

/// The rules among the first `n` that match node `at` of `nodes`, ordered by specificity and then
/// by source order.
pub open spec fn cascade_order(nodes: Seq<NodeData>, at: int, rules: Seq<CssRule>, n: int) -> Seq<usize>
    decreases n,
{
    if n <= 0 {
        Seq::empty()
    } else {
        let o = cascade_order(nodes, at, rules, n - 1);
        if selector_matches(nodes, at, rules[n - 1].selector@) {
            let s = specificity(rules[n - 1].selector@);
            o.insert(insert_pos(rules, o, s, 0), (n - 1) as usize)
        } else {
            o
        }
    }
}

/// The declarations of the rules in `order`, one rule after the other.
pub open spec fn cascade_decls(rules: Seq<CssRule>, order: Seq<usize>) -> Seq<(Seq<char>, Seq<char>)>
    decreases order.len(),
{
    if order.len() == 0 {
        Seq::empty()
    } else {
        cascade_decls(rules, order.drop_last()) + decls_view(rules[order.last() as int].declarations@)
    }
}

/// Whether some rule of the stylesheet matches the node.
pub open spec fn has_match(nodes: Seq<NodeData>, at: int, rules: Seq<CssRule>) -> bool {
    exists|j: int| 0 <= j < rules.len() && selector_matches(nodes, at, (#[trigger] rules[j]).selector@)
}

/// The declaration list that the cascade gives the node.
pub open spec fn node_decls(nodes: Seq<NodeData>, at: int, rules: Seq<CssRule>) -> Seq<(Seq<char>, Seq<char>)> {
    cascade_decls(rules, cascade_order(nodes, at, rules, rules.len() as int))
}

fn part_matches_exec(node: &NodeData, part: &SelectorPart) -> (r: bool)
    ensures
        r == part_matches(*node, *part),
{
    match part {
        SelectorPart::Global => true,
        SelectorPart::Type(t) => node.node_type == *t,
        SelectorPart::Class(c) => {
            let mut k: usize = 0;
            while k < node.classes.len()
                invariant
                    k <= node.classes@.len(),
                    *part == SelectorPart::Class(*c),
                    forall|j: int| 0 <= j < k ==> (#[trigger] node.classes@[j])@ != c@,
                decreases node.classes@.len() - k,
            {
                if node.classes[k] == *c {
                    assert(node.classes@[k as int]@ == c@);
                    return true;
                }
                k = k + 1;
            }
            false
        },
        SelectorPart::Id(i) => match &node.id {
            Some(id) => *id == *i,
            None => false,
        },
        _ => true,
    }
}

fn parent_of_exec(nodes: &Vec<NodeData>, n: usize) -> (r: Option<NodeId>)
    requires
        n < nodes@.len(),
    ensures
        r == parent_of(nodes@, n as int),
{
    match nodes[n].parent {
        Some(p) => if p < n {
            Some(p)
        } else {
            None
        },
        None => None,
    }
}

/// Whether the first `len` steps of `sel` match node `n`.
fn path_matches_exec(nodes: &Vec<NodeData>, sel: &Vec<SelectorPart>, len: usize, n: usize) -> (r: bool)
    requires
        len <= sel@.len(),
        n < nodes@.len(),
    ensures
        r == path_matches(nodes@, sel@.take(len as int), n as int),
    decreases len, n, 0int,
{
    if len == 0 {
        return true;
    }
    proof {
        assert(sel@.take(len as int).drop_last() =~= sel@.take(len - 1));
    }
    match &sel[len - 1] {
        SelectorPart::DirectChildren => match parent_of_exec(nodes, n) {
            Some(p) => path_matches_exec(nodes, sel, len - 1, p),
            None => false,
        },
        SelectorPart::Children => match parent_of_exec(nodes, n) {
            Some(p) => ancestor_matches_exec(nodes, sel, len - 1, p),
            None => false,
        },
        part => part_matches_exec(&nodes[n], part) && path_matches_exec(nodes, sel, len - 1, n),
    }
}

/// Whether the first `len` steps of `sel` match node `n` or one of its ancestors.
fn ancestor_matches_exec(nodes: &Vec<NodeData>, sel: &Vec<SelectorPart>, len: usize, n: usize) -> (r: bool)
    requires
        len <= sel@.len(),
        n < nodes@.len(),
    ensures
        r == ancestor_matches(nodes@, sel@.take(len as int), n as int),
    decreases len, n, 1int,
{
    if path_matches_exec(nodes, sel, len, n) {
        return true;
    }
    match parent_of_exec(nodes, n) {
        Some(p) => ancestor_matches_exec(nodes, sel, len, p),
        None => false,
    }
}

fn selector_matches_exec(nodes: &Vec<NodeData>, at: usize, sel: &Vec<SelectorPart>) -> (r: bool)
    requires
        at < nodes@.len(),
    ensures
        r == selector_matches(nodes@, at as int, sel@),
{
    proof {
        assert(sel@.take(sel@.len() as int) =~= sel@);
    }
    path_matches_exec(nodes, sel, sel.len(), at)
}

fn specificity_of(sel: &Vec<SelectorPart>) -> (r: (usize, usize, usize))
    ensures
        (r.0 as nat, r.1 as nat, r.2 as nat) == specificity(sel@),
{
    let mut ids: usize = 0;
    let mut classes: usize = 0;
    let mut types: usize = 0;
    let mut k: usize = 0;
    while k < sel.len()
        invariant
            k <= sel@.len(),
            ids + classes + types <= k,
            (ids as nat, classes as nat, types as nat) == specificity(sel@.take(k as int)),
        decreases sel@.len() - k,
    {
        proof {
            assert(sel@.take(k + 1).drop_last() =~= sel@.take(k as int));
        }
        match &sel[k] {
            SelectorPart::Id(_) => ids = ids + 1,
            SelectorPart::Class(_) => classes = classes + 1,
            SelectorPart::Type(_) => types = types + 1,
            _ => {},
        }
        k = k + 1;
    }
    proof {
        assert(sel@.take(k as int) =~= sel@);
    }
    (ids, classes, types)
}

fn more_specific_exec(a: (usize, usize, usize), b: (usize, usize, usize)) -> (r: bool)
    ensures
        r == more_specific((a.0 as nat, a.1 as nat, a.2 as nat), (b.0 as nat, b.1 as nat, b.2 as nat)),
{
    a.0 > b.0 || (a.0 == b.0 && (a.1 > b.1 || (a.1 == b.1 && a.2 > b.2)))
}

/// The rules that match node `at`, in cascade order.
fn cascade_order_exec(nodes: &Vec<NodeData>, at: usize, rules: &Vec<CssRule>, specs: &Vec<(usize, usize, usize)>) -> (r: Vec<usize>)
    requires
        at < nodes@.len(),
        specs@.len() == rules@.len(),
        forall|j: int| 0 <= j < rules@.len() ==> {
            let s = #[trigger] specs@[j];
            (s.0 as nat, s.1 as nat, s.2 as nat) == specificity(rules@[j].selector@)
        },
    ensures
        r@ == cascade_order(nodes@, at as int, rules@, rules@.len() as int),
        forall|m: int| 0 <= m < r@.len() ==> #[trigger] r@[m] < rules@.len(),
{
    let mut order: Vec<usize> = Vec::new();
    let mut j: usize = 0;
    while j < rules.len()
        invariant
            j <= rules@.len(),
            at < nodes@.len(),
            specs@.len() == rules@.len(),
            forall|i: int| 0 <= i < rules@.len() ==> {
                let s = #[trigger] specs@[i];
                (s.0 as nat, s.1 as nat, s.2 as nat) == specificity(rules@[i].selector@)
            },
            order@ == cascade_order(nodes@, at as int, rules@, j as int),
            forall|i: int| 0 <= i < order@.len() ==> #[trigger] order@[i] < j,
            order@.len() <= j,
        decreases rules@.len() - j,
    {
        if selector_matches_exec(nodes, at, &rules[j].selector) {
            let s = specs[j];
            let ghost ss = specificity(rules@[j as int].selector@);
            let mut p: usize = 0;
            while p < order.len() && !more_specific_exec(specs[order[p]], s)
                invariant
                    p <= order@.len(),
                    specs@.len() == rules@.len(),
                    forall|i: int| 0 <= i < rules@.len() ==> {
                        let s = #[trigger] specs@[i];
                        (s.0 as nat, s.1 as nat, s.2 as nat) == specificity(rules@[i].selector@)
                    },
                    forall|i: int| 0 <= i < order@.len() ==> #[trigger] order@[i] < j,
                    j < rules@.len(),
                    (s.0 as nat, s.1 as nat, s.2 as nat) == ss,
                    insert_pos(rules@, order@, ss, 0) == insert_pos(rules@, order@, ss, p as int),
                decreases order@.len() - p,
            {
                p = p + 1;
            }
            let ghost before = order@;
            order.insert(p, j);
            proof {
                assert forall|i: int| 0 <= i < order@.len() implies #[trigger] order@[i] < j + 1 by {
                    if i < p {
                        assert(order@[i] == before[i]);
                    } else if i > p {
                        assert(order@[i] == before[i - 1]);
                    }
                }
            }
        }
        j = j + 1;
    }
    order
}

fn rule_specificities(rules: &Vec<CssRule>) -> (r: Vec<(usize, usize, usize)>)
    ensures
        r@.len() == rules@.len(),
        forall|j: int| 0 <= j < rules@.len() ==> {
            let s = #[trigger] r@[j];
            (s.0 as nat, s.1 as nat, s.2 as nat) == specificity(rules@[j].selector@)
        },
{
    let mut r: Vec<(usize, usize, usize)> = Vec::new();
    let mut j: usize = 0;
    while j < rules.len()
        invariant
            j <= rules@.len(),
            r@.len() == j,
            forall|i: int| 0 <= i < j ==> {
                let s = #[trigger] r@[i];
                (s.0 as nat, s.1 as nat, s.2 as nat) == specificity(rules@[i].selector@)
            },
        decreases rules@.len() - j,
    {
        r.push(specificity_of(&rules[j].selector));
        j = j + 1;
    }
    r
}


/// The cascade keeps a matching rule, and only those: its order is non-empty exactly when
/// some rule matches.
pub proof fn lemma_cascade_order_len(nodes: Seq<NodeData>, at: int, rules: Seq<CssRule>, n: int)
    requires
        0 <= n <= rules.len(),
    ensures
        cascade_order(nodes, at, rules, n).len() > 0 <==> exists|j: int|
            0 <= j < n && selector_matches(nodes, at, (#[trigger] rules[j]).selector@),
    decreases n,
{
    if n > 0 {
        lemma_cascade_order_len(nodes, at, rules, n - 1);
        let o = cascade_order(nodes, at, rules, n - 1);
        if selector_matches(nodes, at, rules[n - 1].selector@) {
            let s = specificity(rules[n - 1].selector@);
            lemma_insert_pos_range(rules, o, s, 0);
        }
    }
}

proof fn lemma_insert_pos_range(rules: Seq<CssRule>, order: Seq<usize>, s: (nat, nat, nat), k: int)
    requires
        0 <= k,
    ensures
        k <= order.len() ==> k <= insert_pos(rules, order, s, k) <= order.len(),
        k > order.len() ==> insert_pos(rules, order, s, k) == order.len(),
    decreases order.len() - k,
{
    if k < order.len() {
        lemma_insert_pos_range(rules, order, s, k + 1);
    }
}

impl UiDescription {
    /// `self` is the cascade of `style` over `dom`: the root is node 0, the default style has
    /// level 0 and no declaration, exactly the nodes that some rule matches have a style of
    /// their own, and that style has the node's index as its level and the declarations of
    /// the matching rules in cascade order.
    pub open spec fn describes(&self, dom: Dom, style: Css) -> bool {
        &&& self.ui_descr_root == 0
        &&& self.default_style_of_node.is_default()
        &&& forall|i: NodeId|
            #[trigger] self.styled_nodes@.contains_key(i) <==> i < dom.arena@.len() && has_match(dom.arena@, i as int, style.rules@)
        &&& forall|i: NodeId|
            #[trigger] self.styled_nodes@.contains_key(i) ==> self.styled_nodes@[i].z_level == i
                && self.styled_nodes@[i].css_constraints.view() == node_decls(dom.arena@, i as int, style.rules@)
    }

    /// The style of node `node`: its own where a rule matched it, else the default.
    pub open spec fn resolved_style(&self, node: NodeId) -> StyledNode {
        if self.styled_nodes@.contains_key(node) {
            self.styled_nodes@[node]
        } else {
            self.default_style_of_node
        }
    }

    /// Runs the cascade of `style` over every node of `dom`.
    pub fn from_dom(dom: &Dom, style: &Css) -> (r: UiDescription)
        ensures
            r.describes(*dom, *style),
    {
        let specs = rule_specificities(&style.rules);
        let mut styled_nodes: BTreeMap<NodeId, StyledNode> = BTreeMap::new();
        let mut i: usize = 0;
        while i < dom.arena.len()
            invariant
                i <= dom.arena@.len(),
                specs@.len() == style.rules@.len(),
                forall|j: int| 0 <= j < style.rules@.len() ==> {
                    let s = #[trigger] specs@[j];
                    (s.0 as nat, s.1 as nat, s.2 as nat) == specificity(style.rules@[j].selector@)
                },
                forall|n: NodeId|
                    #[trigger] styled_nodes@.contains_key(n) <==> n < i && has_match(dom.arena@, n as int, style.rules@),
                forall|n: NodeId|
                    #[trigger] styled_nodes@.contains_key(n) ==> styled_nodes@[n].z_level == n
                        && styled_nodes@[n].css_constraints.view() == node_decls(dom.arena@, n as int, style.rules@),
            decreases dom.arena@.len() - i,
        {
            let order = cascade_order_exec(&dom.arena, i, &style.rules, &specs);
            proof {
                lemma_cascade_order_len(dom.arena@, i as int, style.rules@, style.rules@.len() as int);
            }
            if order.len() > 0 {
                let mut list = CssConstraintList::empty();
                let mut k: usize = 0;
                while k < order.len()
                    invariant
                        k <= order@.len(),
                        order@ == cascade_order(dom.arena@, i as int, style.rules@, style.rules@.len() as int),
                        forall|m: int| 0 <= m < order@.len() ==> #[trigger] order@[m] < style.rules@.len(),
                        list.view() == cascade_decls(style.rules@, order@.take(k as int)),
                    decreases order@.len() - k,
                {
                    list.push_rule(&style.rules[order[k]]);
                    proof {
                        assert(order@.take(k + 1).drop_last() =~= order@.take(k as int));
                    }
                    k = k + 1;
                }
                proof {
                    assert(order@.take(k as int) =~= order@);
                }
                styled_nodes.insert(i, StyledNode { z_level: i, css_constraints: list });
            }
            i = i + 1;
        }
        UiDescription {
            ui_descr_root: 0,
            styled_nodes,
            default_style_of_node: StyledNode::default(),
        }
    }

    /// The style of `node`, falling back to the shared default.
    pub fn style_of(&self, node: NodeId) -> (r: &StyledNode)
        ensures
            *r == self.resolved_style(node),
    {
        match self.styled_nodes.get(&node) {
            Some(s) => s,
            None => &self.default_style_of_node,
        }
    }
}


/// The last declaration of a property in `a + b` is the one in `b`, where `b` has one.
pub proof fn lemma_last_value_append(
    a: Seq<(Seq<char>, Seq<char>)>,
    b: Seq<(Seq<char>, Seq<char>)>,
    property: Seq<char>,
)
    ensures
        last_value(a + b, property) == if last_value(b, property).is_some() {
            last_value(b, property)
        } else {
            last_value(a, property)
        },
    decreases b.len(),
{
    if b.len() == 0 {
        assert(a + b =~= a);
    } else {
        assert((a + b).drop_last() =~= a + b.drop_last());
        lemma_last_value_append(a, b.drop_last(), property);
    }
}

/// Cascade order in a stylesheet of two rules: where both match a node and the first is no
/// more specific than the second, the node gets the first rule's declarations before the second's, and a
/// last-wins lookup of any property that the second rule sets yields the second rule's value.
pub proof fn lemma_cascade_keeps_order(nodes: Seq<NodeData>, at: int, r1: CssRule, r2: CssRule, property: Seq<char>)
    requires
        selector_matches(nodes, at, r1.selector@),
        selector_matches(nodes, at, r2.selector@),
        !more_specific(specificity(r1.selector@), specificity(r2.selector@)),
    ensures
        node_decls(nodes, at, seq![r1, r2]) == decls_view(r1.declarations@) + decls_view(r2.declarations@),
        last_value(decls_view(r2.declarations@), property).is_some() ==> last_value(
            node_decls(nodes, at, seq![r1, r2]),
            property,
        ) == last_value(decls_view(r2.declarations@), property),
{
    let rules = seq![r1, r2];
    let o0 = cascade_order(nodes, at, rules, 0);
    assert(o0 == Seq::<usize>::empty());
    assert(insert_pos(rules, o0, specificity(r1.selector@), 0) == 0);
    let o1 = cascade_order(nodes, at, rules, 1);
    assert(rules[0] == r1);
    assert(o1 =~= seq![0usize]);
    assert(insert_pos(rules, o1, specificity(r2.selector@), 1) == 1);
    assert(insert_pos(rules, o1, specificity(r2.selector@), 0) == 1);
    let o2 = cascade_order(nodes, at, rules, 2);
    assert(rules[1] == r2);
    assert(o2 =~= seq![0usize, 1usize]);
    assert(o2.drop_last() =~= o1);
    assert(o1.drop_last() =~= o0);
    assert(o1.last() == 0);
    assert(cascade_decls(rules, o1.drop_last()) == Seq::<(Seq<char>, Seq<char>)>::empty());
    assert(cascade_decls(rules, o1) =~= decls_view(r1.declarations@));
    lemma_last_value_append(decls_view(r1.declarations@), decls_view(r2.declarations@), property);
}

/// Paint order follows document order: among nodes that have a style of their own, a later
/// sibling is never below an earlier one, and a child never below its parent.
pub proof fn lemma_paint_order_monotonic(d: UiDescription, dom: Dom, style: Css, a: NodeId, b: NodeId)
    requires
        dom.wf(),
        d.describes(dom, style),
        d.styled_nodes@.contains_key(a),
        d.styled_nodes@.contains_key(b),
        a < b && dom.arena@[a as int].parent == dom.arena@[b as int].parent
            || dom.arena@[b as int].parent == Some(a),
    ensures
        d.styled_nodes@[a].z_level <= d.styled_nodes@[b].z_level,
{
    assert(b < dom.arena@.len());
    if dom.arena@[b as int].parent == Some(a) {
        assert(b > 0) by {
            if b == 0 {
                assert(dom.arena@[0].parent.is_none());
            }
        }
        assert(dom.arena@[b as int].parent.unwrap() < b);
    }
}

/// A node that no rule matches resolves to the shared default style: level 0, no declaration.
pub proof fn lemma_default_fallback(d: UiDescription, dom: Dom, style: Css, node: NodeId)
    requires
        d.describes(dom, style),
        !has_match(dom.arena@, node as int, style.rules@),
    ensures
        d.resolved_style(node) == d.default_style_of_node,
        d.resolved_style(node).is_default(),
{
}


impl Css {
    /// A stylesheet without rules.
    pub fn empty() -> (r: Css)
        ensures
            r.rules@.len() == 0,
    {
        Css { rules: Vec::new() }
    }
}

impl Default for UiDescription {
    /// The description of a lone `div` under an empty stylesheet: no node has a style of its own.
    fn default() -> (r: UiDescription)
        ensures
            r.ui_descr_root == 0,
            r.default_style_of_node.is_default(),
            r.styled_nodes@.is_empty(),
    {
        let dom = Dom::new("div".to_owned());
        let css = Css::empty();
        let r = UiDescription::from_dom(&dom, &css);
        assert(r.styled_nodes@ =~= Map::<NodeId, StyledNode>::empty());
        r
    }
}


/// Whether rule `a` comes before rule `b` in a cascade: it is less specific, or as specific
/// and earlier in the stylesheet.
pub open spec fn cascades_before(rules: Seq<CssRule>, a: usize, b: usize) -> bool {
    let sa = specificity(rules[a as int].selector@);
    let sb = specificity(rules[b as int].selector@);
    more_specific(sb, sa) || (sa == sb && a < b)
}

proof fn lemma_insert_pos_props(rules: Seq<CssRule>, order: Seq<usize>, s: (nat, nat, nat), k: int)
    requires
        0 <= k <= order.len(),
    ensures
        k <= insert_pos(rules, order, s, k) <= order.len(),
        forall|q: int|
            k <= q < insert_pos(rules, order, s, k) ==> !more_specific(
                specificity(rules[(#[trigger] order[q]) as int].selector@),
                s,
            ),
        insert_pos(rules, order, s, k) < order.len() ==> more_specific(
            specificity(rules[order[insert_pos(rules, order, s, k)] as int].selector@),
            s,
        ),
    decreases order.len() - k,
{
    if k < order.len() {
        lemma_insert_pos_props(rules, order, s, k + 1);
    }
}

/// Cascade order, for any stylesheet: the cascade of a node lists exactly the rules that
/// match it, each once, less specific rules first and, among equally specific ones, in
/// stylesheet order.
pub proof fn lemma_cascade_order_sorted(nodes: Seq<NodeData>, at: int, rules: Seq<CssRule>, n: int)
    requires
        0 <= n <= rules.len(),
        rules.len() <= usize::MAX,
    ensures
        forall|j: usize| #[trigger] cascade_order(nodes, at, rules, n).contains(j) <==> j < n
            && selector_matches(nodes, at, rules[j as int].selector@),
        forall|p: int, q: int|
            0 <= p < q < cascade_order(nodes, at, rules, n).len() ==> cascades_before(
                rules,
                #[trigger] cascade_order(nodes, at, rules, n)[p],
                #[trigger] cascade_order(nodes, at, rules, n)[q],
            ),
    decreases n,
{
    if n > 0 {
        lemma_cascade_order_sorted(nodes, at, rules, n - 1);
        let o = cascade_order(nodes, at, rules, n - 1);
        let j = (n - 1) as usize;
        if selector_matches(nodes, at, rules[n - 1].selector@) {
            let s = specificity(rules[n - 1].selector@);
            lemma_insert_pos_props(rules, o, s, 0);
            let pos = insert_pos(rules, o, s, 0);
            let o2 = o.insert(pos, j);
            assert(o2 == cascade_order(nodes, at, rules, n));
            assert forall|x: usize| #[trigger] o2.contains(x) <==> x < n && selector_matches(
                nodes,
                at,
                rules[x as int].selector@,
            ) by {
                if o2.contains(x) {
                    let w = choose|w: int| 0 <= w < o2.len() && o2[w] == x;
                    if w < pos {
                        assert(o[w] == x);
                        assert(o.contains(x));
                    } else if w > pos {
                        assert(o[w - 1] == x);
                        assert(o.contains(x));
                    } else {
                        assert(x == j);
                    }
                }
                if x < n && selector_matches(nodes, at, rules[x as int].selector@) {
                    if x == j {
                        assert(o2[pos] == x);
                    } else {
                        assert(o.contains(x));
                        let w = choose|w: int| 0 <= w < o.len() && o[w] == x;
                        if w < pos {
                            assert(o2[w] == x);
                        } else {
                            assert(o2[w + 1] == x);
                        }
                    }
                }
            }
            assert forall|p: int, q: int| 0 <= p < q < o2.len() implies cascades_before(
                rules,
                #[trigger] o2[p],
                #[trigger] o2[q],
            ) by {
                if p < pos && q < pos {
                    assert(o2[p] == o[p] && o2[q] == o[q]);
                } else if p < pos && q == pos {
                    assert(o2[p] == o[p]);
                    assert(o.contains(o[p]));
                } else if p < pos && q > pos {
                    assert(o2[p] == o[p] && o2[q] == o[q - 1]);
                } else if p == pos {
                    assert(o2[q] == o[q - 1]);
                    assert(o.contains(o[q - 1]));
                    if q - 1 > pos {
                        assert(cascades_before(rules, o[pos], o[q - 1]));
                    }
                } else {
                    assert(o2[p] == o[p - 1] && o2[q] == o[q - 1]);
                }
            }
        }
    }
}

} // verus!
