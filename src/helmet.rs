use vstd::prelude::*;

use crate::descriptor::{
    copy_string, declared_descriptors, extract_element_maps, maps_view, DescriptorView,
};
use crate::head::{actions_view, ActionView, HeadAction};
use crate::identity::{identity, identity_of};
use crate::registry::Registry;
use crate::template::Template;

verus! {

/// What a component hands over: the seed that namespaces its identities
/// (0 unless chosen), an optional title, and its declared children.
pub struct HelmetProps {
    pub seed: i64,
    pub title: Option<String>,
    pub children: Option<Template>,
}

/// The title action of a component, if it sets a title.
pub open spec fn title_actions(title: Option<String>) -> Seq<ActionView> {
    match title {
        Some(t) => seq![ActionView::SetTitle(t@)],
        None => seq![],
    }
}

/// The registry and the appends after installing `ds` in order under `seed`
/// from registry `reg`: a descriptor whose identity is not yet registered
/// is registered and appended; one whose identity is, is skipped.
pub open spec fn install_spec(reg: Set<u64>, seed: i64, ds: Seq<DescriptorView>) -> (Set<u64>, Seq<ActionView>)
    decreases ds.len(),
{
    if ds.len() == 0 {
        (reg, seq![])
    } else {
        let (r, acts) = install_spec(reg, seed, ds.drop_last());
        let id = identity_of(seed, ds.last());
        if r.contains(id) {
            (r, acts)
        } else {
            (r.insert(id), acts.push(ActionView::Append(ds.last(), id)))
        }
    }
}

/// The registry and the actions of mounting `p` on registry `reg`: the
/// title first, then the installs of its declared descriptors.
pub open spec fn mount_spec(reg: Set<u64>, p: HelmetProps) -> (Set<u64>, Seq<ActionView>) {
    let (r, acts) = install_spec(reg, p.seed, declared_descriptors(p.children));
    (r, title_actions(p.title) + acts)
}

/// The registry and the actions of tearing down `ds` under `seed`: each
/// identity in turn leaves the registry and its elements leave the head.
pub open spec fn teardown_spec(reg: Set<u64>, seed: i64, ds: Seq<DescriptorView>) -> (Set<u64>, Seq<ActionView>)
    decreases ds.len(),
{
    if ds.len() == 0 {
        (reg, seq![])
    } else {
        let (r, acts) = teardown_spec(reg, seed, ds.drop_last());
        let id = identity_of(seed, ds.last());
        (r.remove(id), acts.push(ActionView::RemoveStamped(id)))
    }
}

/// The registry and the actions of unmounting `p`.
pub open spec fn unmount_spec(reg: Set<u64>, p: HelmetProps) -> (Set<u64>, Seq<ActionView>) {
    teardown_spec(reg, p.seed, declared_descriptors(p.children))
}

impl HelmetProps {
    pub fn new(seed: i64, title: Option<String>, children: Option<Template>) -> (r: HelmetProps)
        ensures
            r.seed == seed,
            r.title == title,
            r.children == children,
    {
        HelmetProps { seed, title, children }
    }

    /// The actions of a mount that could not reach the registry: the title
    /// alone.
    pub fn title_pass(&self) -> (r: Vec<HeadAction>)
        ensures
            actions_view(r@) == title_actions(self.title),
    {
        let mut r: Vec<HeadAction> = Vec::new();
        match &self.title {
            Some(t) => {
                r.push(HeadAction::SetTitle { text: copy_string(t) });
            },
            None => {},
        }
        assert(actions_view(r@) =~= title_actions(self.title));
        r
    }

    /// The unmount pass: each declared descriptor's identity leaves the
    /// registry, and the elements stamped with it are to leave the head.
    pub fn teardown(&self, registry: &mut Registry) -> (r: Vec<HeadAction>)
        requires
            old(registry).wf(),
        ensures
            final(registry).wf(),
            (final(registry)@, actions_view(r@)) == unmount_spec(old(registry)@, *self),
    {
        let mut r: Vec<HeadAction> = Vec::new();
        let maps = match extract_element_maps(&self.children) {
            Some(maps) => maps,
            None => {
                assert(actions_view(r@) =~= seq![]);
                return r;
            },
        };
        let ghost ds = maps_view(maps@);
        let ghost reg0 = registry@;
        let mut i: usize = 0;
        while i < maps.len()
            invariant
                i <= maps@.len(),
                ds == maps_view(maps@),
                registry.wf(),
                (registry@, actions_view(r@)) == teardown_spec(reg0, self.seed, ds.subrange(0, i as int)),
            decreases maps@.len() - i,
        {
            let id = identity(self.seed, &maps[i]);
            registry.remove(id);
            r.push(HeadAction::RemoveStamped { identity: id });
            proof {
                let next = ds.subrange(0, i + 1);
                assert(next.drop_last() =~= ds.subrange(0, i as int));
                assert(next.last() == maps@[i as int]@);
                assert(actions_view(r@) =~= teardown_spec(reg0, self.seed, next).1);
            }
            i = i + 1;
        }
        assert(ds.subrange(0, ds.len() as int) =~= ds);
        r
    }
}

/// The mount pass of a component: its title is set, then each declared
/// descriptor whose identity is not yet registered is registered and its
/// element is to be added to the head, in the order declared.
#[allow(non_snake_case)]
pub fn Helmet(registry: &mut Registry, props: &HelmetProps) -> (r: Vec<HeadAction>)
    requires
        old(registry).wf(),
    ensures
        final(registry).wf(),
        (final(registry)@, actions_view(r@)) == mount_spec(old(registry)@, *props),
{
    let mut r = props.title_pass();
    let ghost titles = actions_view(r@);
    let ghost reg0 = registry@;
    let maps = match extract_element_maps(&props.children) {
        Some(maps) => maps,
        None => {
            assert(title_actions(props.title) + seq![] =~= titles);
            return r;
        },
    };
    let ghost ds = maps_view(maps@);
    let mut i: usize = 0;
    while i < maps.len()
        invariant
            i <= maps@.len(),
            ds == maps_view(maps@),
            titles == title_actions(props.title),
            registry.wf(),
            registry@ == install_spec(reg0, props.seed, ds.subrange(0, i as int)).0,
            actions_view(r@) == titles + install_spec(reg0, props.seed, ds.subrange(0, i as int)).1,
        decreases maps@.len() - i,
    {
        let id = identity(props.seed, &maps[i]);
        proof {
            let next = ds.subrange(0, i + 1);
            assert(next.drop_last() =~= ds.subrange(0, i as int));
            assert(next.last() == maps@[i as int]@);
        }
        if registry.insert_if_absent(id) {
            let ghost before = r@;
            let element = maps[i].copy();
            r.push(HeadAction::Append { element, identity: id });
            proof {
                let prev = install_spec(reg0, props.seed, ds.subrange(0, i as int)).1;
                assert(r@ == before.push(HeadAction::Append { element, identity: id }));
                assert(actions_view(r@) =~= actions_view(before).push(ActionView::Append(ds[i as int], id)));
                assert(titles + prev.push(ActionView::Append(ds[i as int], id)) =~= (titles + prev).push(ActionView::Append(ds[i as int], id)));
            }
        }
        i = i + 1;
    }
    assert(ds.subrange(0, ds.len() as int) =~= ds);
    r
}

} // verus!
