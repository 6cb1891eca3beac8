//! Head elements that components declare, installed once however many
//! components ask for them.
//!
//! Components hand their declared children (a [`Template`]) to the library,
//! which turns them into element descriptors, hashes each with the
//! component's seed into an identity, and decides against a [`Registry`] of
//! installed identities which elements to add to the document head and which
//! to take out again. The decisions come back as [`HeadAction`]s; [`Head`] is a
//! model of the head region that gives each action its meaning.

pub mod descriptor;
pub mod head;
pub mod helmet;
pub mod identity;
pub mod laws;
pub mod registry;
pub mod template;

pub use descriptor::{extract_element_maps, ElementMap};
pub use head::{Head, HeadAction, HeadNode};
pub use helmet::{Helmet, HelmetProps};
pub use identity::identity;
pub use registry::Registry;
pub use template::{Template, TemplateAttribute, TemplateNode};
