use vstd::prelude::*;

use crate::template::{Template, TemplateAttribute, TemplateNode};

verus! {

/// What a descriptor is, as values: the tag, the static attributes in order,
/// and the text content if there is one.
pub struct DescriptorView {
    pub tag: Seq<char>,
    pub attributes: Seq<(Seq<char>, Seq<char>)>,
    pub inner: Option<Seq<char>>,
}

/// One declared head element, as a value that two requests can share.
pub struct ElementMap {
    pub tag: String,
    pub attributes: Vec<(String, String)>,
    pub inner_html: Option<String>,
}

pub open spec fn pair_view(p: (String, String)) -> (Seq<char>, Seq<char>) {
    (p.0@, p.1@)
}

pub open spec fn pairs_view(ps: Seq<(String, String)>) -> Seq<(Seq<char>, Seq<char>)> {
    ps.map_values(|p: (String, String)| pair_view(p))
}

pub open spec fn opt_view(o: Option<String>) -> Option<Seq<char>> {
    match o {
        Some(s) => Some(s@),
        None => None,
    }
}

impl View for ElementMap {
    type V = DescriptorView;

    open spec fn view(&self) -> DescriptorView {
        DescriptorView {
            tag: self.tag@,
            attributes: pairs_view(self.attributes@),
            inner: opt_view(self.inner_html),
        }
    }
}

pub open spec fn maps_view(ms: Seq<ElementMap>) -> Seq<DescriptorView> {
    ms.map_values(|m: ElementMap| m@)
}

/// The attributes whose values the template fixes, in order.
pub open spec fn static_attributes(attrs: Seq<TemplateAttribute>) -> Seq<(Seq<char>, Seq<char>)>
    decreases attrs.len(),
{
    if attrs.len() == 0 {
        seq![]
    } else {
        let rest = static_attributes(attrs.drop_last());
        match attrs.last() {
            TemplateAttribute::Static { name, value } => rest.push((name@, value@)),
            TemplateAttribute::Dynamic => rest,
        }
    }
}

/// The text of a node that is plain text.
pub open spec fn text_of(n: TemplateNode) -> Option<Seq<char>> {
    match n {
        TemplateNode::Text { text } => Some(text@),
        _ => None,
    }
}

/// The text content of an element with these children: the first child if
/// it is text, or the text inside a first child that is an element holding
/// exactly one node.
pub open spec fn inner_content(children: Seq<TemplateNode>) -> Option<Seq<char>> {
    if children.len() == 0 {
        None
    } else {
        match children[0] {
            TemplateNode::Text { text } => Some(text@),
            TemplateNode::Element { children: grand, .. } => if grand@.len() == 1 {
                text_of(grand@[0])
            } else {
                None
            },
            TemplateNode::Dynamic => None,
        }
    }
}

/// The descriptor of a top-level node, if it is an element.
pub open spec fn descriptor_of(n: TemplateNode) -> Option<DescriptorView> {
    match n {
        TemplateNode::Element { tag, attrs, children } => Some(
            DescriptorView {
                tag: tag@,
                attributes: static_attributes(attrs@),
                inner: inner_content(children@),
            },
        ),
        _ => None,
    }
}

/// The descriptors of the element nodes among these, in order.
pub open spec fn descriptors_of(roots: Seq<TemplateNode>) -> Seq<DescriptorView>
    decreases roots.len(),
{
    if roots.len() == 0 {
        seq![]
    } else {
        let rest = descriptors_of(roots.drop_last());
        match descriptor_of(roots.last()) {
            Some(d) => rest.push(d),
            None => rest,
        }
    }
}

/// The descriptors declared by a component's children; none where it has no
/// children.
pub open spec fn declared_descriptors(children: Option<Template>) -> Seq<DescriptorView> {
    match children {
        Some(t) => descriptors_of(t.roots@),
        None => seq![],
    }
}

pub fn copy_string(s: &String) -> (r: String)
    ensures
        r@ == s@,
{
    s.clone()
}

pub fn copy_opt_string(o: &Option<String>) -> (r: Option<String>)
    ensures
        opt_view(r) == opt_view(*o),
{
    match o {
        Some(s) => Some(copy_string(s)),
        None => None,
    }
}

pub fn copy_pairs(ps: &Vec<(String, String)>) -> (r: Vec<(String, String)>)
    ensures
        pairs_view(r@) == pairs_view(ps@),
{
    let mut r: Vec<(String, String)> = Vec::new();
    let mut i: usize = 0;
    while i < ps.len()
        invariant
            i <= ps@.len(),
            r@.len() == i,
            pairs_view(r@) == pairs_view(ps@.subrange(0, i as int)),
        decreases ps@.len() - i,
    {
        let name = copy_string(&ps[i].0);
        let value = copy_string(&ps[i].1);
        let ghost before = r@;
        r.push((name, value));
        proof {
            let next = ps@.subrange(0, i + 1);
            let prefix = ps@.subrange(0, i as int);
            assert forall|j: int| 0 <= j < i implies pair_view(r@[j]) == pair_view(next[j]) by {
                assert(r@[j] == before[j]);
                assert(pairs_view(before)[j] == pairs_view(prefix)[j]);
                assert(next[j] == prefix[j]);
            }
            assert(next == ps@.subrange(0, i as int).push(ps@[i as int]));
            assert(pair_view(r@.last()) == pair_view(ps@[i as int]));
            assert(pairs_view(r@) =~= pairs_view(next));
        }
        i = i + 1;
    }
    assert(ps@.subrange(0, ps@.len() as int) == ps@);
    r
}

impl ElementMap {
    /// A copy of this descriptor.
    pub fn copy(&self) -> (r: ElementMap)
        ensures
            r@ == self@,
    {
        ElementMap {
            tag: copy_string(&self.tag),
            attributes: copy_pairs(&self.attributes),
            inner_html: copy_opt_string(&self.inner_html),
        }
    }
}

fn static_attributes_of(attrs: &Vec<TemplateAttribute>) -> (r: Vec<(String, String)>)
    ensures
        pairs_view(r@) == static_attributes(attrs@),
{
    let mut r: Vec<(String, String)> = Vec::new();
    let mut i: usize = 0;
    while i < attrs.len()
        invariant
            i <= attrs@.len(),
            pairs_view(r@) == static_attributes(attrs@.subrange(0, i as int)),
        decreases attrs@.len() - i,
    {
        proof {
            let next = attrs@.subrange(0, i + 1);
            assert(next.drop_last() == attrs@.subrange(0, i as int));
            assert(next.last() == attrs@[i as int]);
        }
        match &attrs[i] {
            TemplateAttribute::Static { name, value } => {
                r.push((copy_string(name), copy_string(value)));
                proof {
                    assert(pairs_view(r@) =~= static_attributes(attrs@.subrange(0, i + 1)));
                }
            },
            TemplateAttribute::Dynamic => {},
        }
        i = i + 1;
    }
    assert(attrs@.subrange(0, attrs@.len() as int) == attrs@);
    r
}

fn inner_content_of(children: &Vec<TemplateNode>) -> (r: Option<String>)
    ensures
        opt_view(r) == inner_content(children@),
{
    if children.len() == 0 {
        return None;
    }
    match &children[0] {
        TemplateNode::Text { text } => Some(copy_string(text)),
        TemplateNode::Element { children: grand, .. } => {
            if grand.len() == 1 {
                match &grand[0] {
                    TemplateNode::Text { text } => Some(copy_string(text)),
                    _ => None,
                }
            } else {
                None
            }
        },
        TemplateNode::Dynamic => None,
    }
}

fn element_map_of(n: &TemplateNode) -> (r: Option<ElementMap>)
    ensures
        match r {
            Some(m) => descriptor_of(*n) == Some(m@),
            None => descriptor_of(*n) is None,
        },
{
    match n {
        TemplateNode::Element { tag, attrs, children } => Some(
            ElementMap {
                tag: copy_string(tag),
                attributes: static_attributes_of(attrs),
                inner_html: inner_content_of(children),
            },
        ),
        _ => None,
    }
}

/// The descriptors of a component's declared children: one for each element
/// at the top level, in order, with its static attributes and its text
/// content. `None` where the component has no children at all.
pub fn extract_element_maps(children: &Option<Template>) -> (r: Option<Vec<ElementMap>>)
    ensures
        match r {
            Some(ms) => children is Some && maps_view(ms@) == declared_descriptors(*children),
            None => children is None,
        },
{
    match children {
        None => None,
        Some(t) => {
            let roots = &t.roots;
            let mut r: Vec<ElementMap> = Vec::new();
            let mut i: usize = 0;
            while i < roots.len()
                invariant
                    i <= roots@.len(),
                    maps_view(r@) == descriptors_of(roots@.subrange(0, i as int)),
                decreases roots@.len() - i,
            {
                proof {
                    let next = roots@.subrange(0, i + 1);
                    assert(next.drop_last() == roots@.subrange(0, i as int));
                    assert(next.last() == roots@[i as int]);
                }
                match element_map_of(&roots[i]) {
                    Some(m) => {
                        r.push(m);
                        proof {
                            assert(maps_view(r@) =~= descriptors_of(roots@.subrange(0, i + 1)));
                        }
                    },
                    None => {},
                }
                i = i + 1;
            }
            assert(roots@.subrange(0, roots@.len() as int) == roots@);
            Some(r)
        },
    }
}

} // verus!
