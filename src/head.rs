use vstd::prelude::*;

use crate::descriptor::{
    copy_opt_string, copy_pairs, copy_string, opt_view, pairs_view, DescriptorView, ElementMap,
};

verus! {

/// An element of the head region, as values. `stamp` is the identity that
/// the element was installed under, where it was installed for a descriptor.
pub struct NodeView {
    pub tag: Seq<char>,
    pub attributes: Seq<(Seq<char>, Seq<char>)>,
    pub text: Option<Seq<char>>,
    pub stamp: Option<u64>,
}

/// An element of the head region: its tag, the attributes set on it in
/// order, its text content, and the identity it is stamped with.
pub struct HeadNode {
    pub tag: String,
    pub attributes: Vec<(String, String)>,
    pub text: Option<String>,
    pub stamp: Option<u64>,
}

impl View for HeadNode {
    type V = NodeView;

    open spec fn view(&self) -> NodeView {
        NodeView {
            tag: self.tag@,
            attributes: pairs_view(self.attributes@),
            text: opt_view(self.text),
            stamp: self.stamp,
        }
    }
}

/// A change to the head region that the library asks for.
pub enum HeadAction {
    /// Give the document's title this text.
    SetTitle { text: String },
    /// Add an element for this descriptor, stamped with its identity.
    Append { element: ElementMap, identity: u64 },
    /// Take out every element stamped with this identity.
    RemoveStamped { identity: u64 },
}

pub enum ActionView {
    SetTitle(Seq<char>),
    Append(DescriptorView, u64),
    RemoveStamped(u64),
}

impl View for HeadAction {
    type V = ActionView;

    open spec fn view(&self) -> ActionView {
        match self {
            HeadAction::SetTitle { text } => ActionView::SetTitle(text@),
            HeadAction::Append { element, identity } => ActionView::Append(element@, *identity),
            HeadAction::RemoveStamped { identity } => ActionView::RemoveStamped(*identity),
        }
    }
}

pub open spec fn actions_view(acts: Seq<HeadAction>) -> Seq<ActionView> {
    acts.map_values(|a: HeadAction| a@)
}

pub open spec fn title_tag() -> Seq<char> {
    seq!['t', 'i', 't', 'l', 'e']
}

/// `i` is the position of the first title element of `h`.
pub open spec fn is_first_title(h: Seq<NodeView>, i: int) -> bool {
    &&& 0 <= i < h.len()
    &&& h[i].tag == title_tag()
    &&& forall|j: int| 0 <= j < i ==> h[j].tag != title_tag()
}

/// The head after its title is set to `t`: the first title element takes the
/// text, or a new title element is added where there is none.
pub open spec fn with_title(h: Seq<NodeView>, t: Seq<char>) -> Seq<NodeView> {
    if exists|i: int| is_first_title(h, i) {
        let i = choose|i: int| is_first_title(h, i);
        h.update(i, NodeView { text: Some(t), ..h[i] })
    } else {
        h.push(NodeView { tag: title_tag(), attributes: seq![], text: Some(t), stamp: None })
    }
}

/// The element installed for descriptor `d` under identity `id`.
pub open spec fn materialized(d: DescriptorView, id: u64) -> NodeView {
    NodeView { tag: d.tag, attributes: d.attributes, text: d.inner, stamp: Some(id) }
}

/// `h` without the elements stamped with `id`, the others kept in order.
pub open spec fn without_stamp(h: Seq<NodeView>, id: u64) -> Seq<NodeView>
    decreases h.len(),
{
    if h.len() == 0 {
        seq![]
    } else {
        let rest = without_stamp(h.drop_last(), id);
        if h.last().stamp == Some(id) {
            rest
        } else {
            rest.push(h.last())
        }
    }
}

/// How many elements of `h` are stamped with `id`.
pub open spec fn stamp_count(h: Seq<NodeView>, id: u64) -> nat
    decreases h.len(),
{
    if h.len() == 0 {
        0
    } else {
        stamp_count(h.drop_last(), id) + if h.last().stamp == Some(id) {
            1nat
        } else {
            0nat
        }
    }
}

pub open spec fn applied(h: Seq<NodeView>, a: ActionView) -> Seq<NodeView> {
    match a {
        ActionView::SetTitle(t) => with_title(h, t),
        ActionView::Append(d, id) => h.push(materialized(d, id)),
        ActionView::RemoveStamped(id) => without_stamp(h, id),
    }
}

/// The head after the actions, taken in order.
pub open spec fn applied_all(h: Seq<NodeView>, acts: Seq<ActionView>) -> Seq<NodeView>
    decreases acts.len(),
{
    if acts.len() == 0 {
        h
    } else {
        applied(applied_all(h, acts.drop_last()), acts.last())
    }
}

/// The head region of a document, holding its elements in order.
///
/// Here every element can be created. A real document may refuse a tag; the
/// element is then missing while its identity stays registered.
pub struct Head {
    pub nodes: Vec<HeadNode>,
}

pub open spec fn nodes_view(ns: Seq<HeadNode>) -> Seq<NodeView> {
    ns.map_values(|n: HeadNode| n@)
}

impl View for Head {
    type V = Seq<NodeView>;

    open spec fn view(&self) -> Seq<NodeView> {
        nodes_view(self.nodes@)
    }
}

fn copy_node(n: &HeadNode) -> (r: HeadNode)
    ensures
        r@ == n@,
{
    HeadNode {
        tag: copy_string(&n.tag),
        attributes: copy_pairs(&n.attributes),
        text: copy_opt_string(&n.text),
        stamp: n.stamp,
    }
}

impl Head {
    /// An empty head.
    pub fn new() -> (r: Head)
        ensures
            r@ == Seq::<NodeView>::empty(),
    {
        let r = Head { nodes: Vec::new() };
        assert(r@ =~= Seq::<NodeView>::empty());
        r
    }

    /// Sets the text of the first title element, adding one where there is
    /// none.
    pub fn update_title(&mut self, t: &String)
        ensures
            final(self)@ == with_title(old(self)@, t@),
    {
        let title = "title".to_owned();
        proof {
            reveal_strlit("title");
            assert(title@ =~= title_tag());
        }
        let ghost h = self@;
        let mut i: usize = 0;
        while i < self.nodes.len()
            invariant
                i <= self.nodes@.len(),
                self@ == h,
                h == old(self)@,
                title@ == title_tag(),
                forall|j: int| 0 <= j < i ==> h[j].tag != title_tag(),
            decreases self.nodes@.len() - i,
        {
            if self.nodes[i].tag == title {
                assert(is_first_title(h, i as int));
                let text = copy_string(t);
                self.nodes[i].text = Some(text);
                proof {
                    assert forall|k: int| is_first_title(h, k) implies k == i by {
                        if k < i {
                        } else if k > i {
                            assert(h[i as int].tag == title_tag());
                        }
                    }
                    assert(self@ =~= with_title(h, t@));
                }
                return;
            }
            i = i + 1;
        }
        let node = HeadNode {
            tag: title,
            attributes: Vec::new(),
            text: Some(copy_string(t)),
            stamp: None,
        };
        proof {
            assert(node@.attributes =~= seq![]);
        }
        self.nodes.push(node);
        proof {
            assert(!exists|k: int| is_first_title(h, k));
            assert(self@ =~= with_title(h, t@));
        }
    }

    /// Adds the element for descriptor `m`, stamped with `id`, at the end.
    pub fn append_element(&mut self, m: &ElementMap, id: u64)
        ensures
            final(self)@ == old(self)@.push(materialized(m@, id)),
    {
        let node = HeadNode {
            tag: copy_string(&m.tag),
            attributes: copy_pairs(&m.attributes),
            text: copy_opt_string(&m.inner_html),
            stamp: Some(id),
        };
        self.nodes.push(node);
        assert(self@ =~= old(self)@.push(materialized(m@, id)));
    }

    /// Takes out every element stamped with `id`.
    pub fn remove_stamped(&mut self, id: u64)
        ensures
            final(self)@ == without_stamp(old(self)@, id),
    {
        let ghost h = self@;
        let mut kept: Vec<HeadNode> = Vec::new();
        let mut i: usize = 0;
        while i < self.nodes.len()
            invariant
                i <= self.nodes@.len(),
                self@ == h,
                nodes_view(kept@) == without_stamp(h.subrange(0, i as int), id),
            decreases self.nodes@.len() - i,
        {
            proof {
                let next = h.subrange(0, i + 1);
                assert(next.drop_last() =~= h.subrange(0, i as int));
                assert(next.last() == self.nodes@[i as int]@);
            }
            if self.nodes[i].stamp != Some(id) {
                let n = copy_node(&self.nodes[i]);
                kept.push(n);
                proof {
                    assert(nodes_view(kept@) =~= without_stamp(h.subrange(0, i + 1), id));
                }
            }
            i = i + 1;
        }
        assert(h.subrange(0, h.len() as int) =~= h);
        self.nodes = kept;
    }

    /// Carries out one action.
    pub fn apply(&mut self, a: &HeadAction)
        ensures
            final(self)@ == applied(old(self)@, a@),
    {
        match a {
            HeadAction::SetTitle { text } => self.update_title(text),
            HeadAction::Append { element, identity } => self.append_element(element, *identity),
            HeadAction::RemoveStamped { identity } => self.remove_stamped(*identity),
        }
    }

    /// Carries out the actions in order.
    pub fn apply_all(&mut self, acts: &Vec<HeadAction>)
        ensures
            final(self)@ == applied_all(old(self)@, actions_view(acts@)),
    {
        let ghost h = self@;
        let mut i: usize = 0;
        while i < acts.len()
            invariant
                i <= acts@.len(),
                self@ == applied_all(h, actions_view(acts@.subrange(0, i as int))),
            decreases acts@.len() - i,
        {
            proof {
                let next = actions_view(acts@.subrange(0, i + 1));
                assert(next.drop_last() =~= actions_view(acts@.subrange(0, i as int)));
                assert(next.last() == acts@[i as int]@);
            }
            self.apply(&acts[i]);
            i = i + 1;
        }
        assert(acts@.subrange(0, acts@.len() as int) =~= acts@);
    }

    /// How many elements are stamped with `id`.
    pub fn count_stamped(&self, id: u64) -> (r: usize)
        ensures
            r == stamp_count(self@, id),
    {
        let mut n: usize = 0;
        let mut i: usize = 0;
        while i < self.nodes.len()
            invariant
                i <= self.nodes@.len(),
                n == stamp_count(self@.subrange(0, i as int), id),
                n <= i,
            decreases self.nodes@.len() - i,
        {
            proof {
                let next = self@.subrange(0, i + 1);
                assert(next.drop_last() =~= self@.subrange(0, i as int));
            }
            if self.nodes[i].stamp == Some(id) {
                n = n + 1;
            }
            i = i + 1;
        }
        assert(self@.subrange(0, self@.len() as int) =~= self@);
        n
    }
}

} // verus!
