use vstd::prelude::*;

verus! {

/// An attribute of a declared element: a name with a value fixed in the
/// template, or a value that is only known when the component renders.
pub enum TemplateAttribute {
    Static { name: String, value: String },
    Dynamic,
}

/// One node of a component's declared children.
pub enum TemplateNode {
    Element { tag: String, attrs: Vec<TemplateAttribute>, children: Vec<TemplateNode> },
    Text { text: String },
    /// A node whose content is an expression evaluated at render time.
    Dynamic,
}

/// The declared children of a component: the nodes at its top level.
pub struct Template {
    pub roots: Vec<TemplateNode>,
}

} // verus!
