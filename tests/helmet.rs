use dioxus_helmet::{
    extract_element_maps, identity, ElementMap, Head, HeadAction, Helmet, HelmetProps, Registry,
    Template, TemplateAttribute, TemplateNode,
};

fn s(x: &str) -> String {
    x.to_string()
}

fn attr(name: &str, value: &str) -> TemplateAttribute {
    TemplateAttribute::Static { name: s(name), value: s(value) }
}

fn text(t: &str) -> TemplateNode {
    TemplateNode::Text { text: s(t) }
}

fn element(tag: &str, attrs: Vec<TemplateAttribute>, children: Vec<TemplateNode>) -> TemplateNode {
    TemplateNode::Element { tag: s(tag), attrs, children }
}

fn icon_link() -> TemplateNode {
    element("link", vec![attr("rel", "icon"), attr("href", "/favicon.ico")], vec![])
}

fn style_node() -> TemplateNode {
    element("style", vec![], vec![text("body{color:blue}")])
}

fn props(seed: i64, title: Option<&str>, roots: Vec<TemplateNode>) -> HelmetProps {
    HelmetProps::new(seed, title.map(s), Some(Template { roots }))
}

fn descriptor(tag: &str, attributes: &[(&str, &str)], inner: Option<&str>) -> ElementMap {
    ElementMap {
        tag: s(tag),
        attributes: attributes.iter().map(|(n, v)| (s(n), s(v))).collect(),
        inner_html: inner.map(s),
    }
}

fn mount(registry: &mut Registry, head: &mut Head, p: &HelmetProps) {
    let actions = Helmet(registry, p);
    head.apply_all(&actions);
}

fn unmount(registry: &mut Registry, head: &mut Head, p: &HelmetProps) {
    let actions = p.teardown(registry);
    head.apply_all(&actions);
}

fn count_tag(head: &Head, tag: &str) -> usize {
    head.nodes.iter().filter(|n| n.tag == tag).count()
}

#[test]
fn extract_absent_children_is_none() {
    assert!(extract_element_maps(&None).is_none());
}

#[test]
fn extract_empty_children_is_empty() {
    let maps = extract_element_maps(&Some(Template { roots: vec![] })).unwrap();
    assert!(maps.is_empty());
}

#[test]
fn extract_skips_non_elements_and_dynamic_attributes() {
    let roots = vec![
        text("loose text"),
        TemplateNode::Dynamic,
        element("meta", vec![attr("name", "x"), TemplateAttribute::Dynamic, attr("content", "y")], vec![]),
    ];
    let maps = extract_element_maps(&Some(Template { roots })).unwrap();
    assert_eq!(maps.len(), 1);
    assert_eq!(maps[0].tag, "meta");
    assert_eq!(maps[0].attributes, vec![(s("name"), s("x")), (s("content"), s("y"))]);
    assert_eq!(maps[0].inner_html, None);
}

#[test]
fn extract_inner_content_rules() {
    let roots = vec![
        element("title", vec![], vec![text("Helmet")]),
        element("style", vec![], vec![element("span", vec![], vec![text("a{color:red}")])]),
        element("style", vec![], vec![element("span", vec![], vec![text("a"), text("b")])]),
        element("script", vec![], vec![TemplateNode::Dynamic]),
        element("noscript", vec![], vec![]),
    ];
    let maps = extract_element_maps(&Some(Template { roots })).unwrap();
    assert_eq!(maps.len(), 5);
    assert_eq!(maps[0].inner_html.as_deref(), Some("Helmet"));
    assert_eq!(maps[1].inner_html.as_deref(), Some("a{color:red}"));
    assert_eq!(maps[2].inner_html, None);
    assert_eq!(maps[3].inner_html, None);
    assert_eq!(maps[4].inner_html, None);
}

#[test]
fn extract_is_replayable() {
    let children = Some(Template { roots: vec![icon_link(), style_node()] });
    let first = extract_element_maps(&children).unwrap();
    let second = extract_element_maps(&children).unwrap();
    assert_eq!(first.len(), second.len());
    for (a, b) in first.iter().zip(second.iter()) {
        assert_eq!(a.tag, b.tag);
        assert_eq!(a.attributes, b.attributes);
        assert_eq!(a.inner_html, b.inner_html);
    }
}

#[test]
fn identity_is_deterministic() {
    let d = descriptor("link", &[("rel", "icon")], None);
    assert_eq!(identity(0, &d), identity(0, &d));
    assert_eq!(identity(7, &d), identity(7, &d.copy()));
}

#[test]
fn identity_depends_on_seed_and_content() {
    let d = descriptor("link", &[("rel", "icon")], None);
    let other = descriptor("link", &[("rel", "stylesheet")], None);
    let with_text = descriptor("link", &[("rel", "icon")], Some("x"));
    assert_ne!(identity(0, &d), identity(1, &d));
    assert_ne!(identity(0, &d), identity(0, &other));
    assert_ne!(identity(0, &d), identity(0, &with_text));
}

#[test]
fn registry_insert_and_remove() {
    let mut r = Registry::new();
    assert!(!r.contains(5));
    assert!(r.insert_if_absent(5));
    assert!(!r.insert_if_absent(5));
    assert!(r.contains(5));
    assert!(r.remove(5));
    assert!(!r.remove(5));
    assert!(!r.contains(5));
}

#[test]
fn dedup_across_components() {
    let mut registry = Registry::new();
    let mut head = Head::new();
    let a = props(0, None, vec![icon_link(), style_node()]);
    let b = props(0, None, vec![style_node(), element("meta", vec![attr("charset", "utf-8")], vec![])]);
    mount(&mut registry, &mut head, &a);
    mount(&mut registry, &mut head, &b);
    let id = identity(0, &descriptor("style", &[], Some("body{color:blue}")));
    assert_eq!(head.count_stamped(id), 1);
    assert_eq!(head.nodes.len(), 3);
}

#[test]
fn dedup_within_one_component() {
    let mut registry = Registry::new();
    let mut head = Head::new();
    let a = props(0, None, vec![icon_link(), icon_link()]);
    let actions = Helmet(&mut registry, &a);
    assert_eq!(actions.len(), 1);
    head.apply_all(&actions);
    assert_eq!(head.nodes.len(), 1);
}

#[test]
fn seeds_give_independent_nodes() {
    let mut registry = Registry::new();
    let mut head = Head::new();
    let a = props(1, None, vec![icon_link()]);
    let b = props(2, None, vec![icon_link()]);
    mount(&mut registry, &mut head, &a);
    mount(&mut registry, &mut head, &b);
    let d = descriptor("link", &[("rel", "icon"), ("href", "/favicon.ico")], None);
    let (ida, idb) = (identity(1, &d), identity(2, &d));
    assert_eq!(head.count_stamped(ida), 1);
    assert_eq!(head.count_stamped(idb), 1);
    unmount(&mut registry, &mut head, &a);
    assert_eq!(head.count_stamped(ida), 0);
    assert_eq!(head.count_stamped(idb), 1);
    unmount(&mut registry, &mut head, &b);
    assert_eq!(head.count_stamped(idb), 0);
    assert!(head.nodes.is_empty());
}

#[test]
fn teardown_removes_only_own_nodes() {
    let mut registry = Registry::new();
    let mut head = Head::new();
    let a = props(0, None, vec![icon_link()]);
    let b = props(0, None, vec![style_node()]);
    mount(&mut registry, &mut head, &a);
    mount(&mut registry, &mut head, &b);
    let h = identity(0, &descriptor("link", &[("rel", "icon"), ("href", "/favicon.ico")], None));
    let h2 = identity(0, &descriptor("style", &[], Some("body{color:blue}")));
    unmount(&mut registry, &mut head, &a);
    assert_eq!(head.count_stamped(h), 0);
    assert_eq!(head.count_stamped(h2), 1);
    assert!(!registry.contains(h));
    assert!(registry.contains(h2));
}

#[test]
fn title_is_overwritten() {
    let mut registry = Registry::new();
    let mut head = Head::new();
    mount(&mut registry, &mut head, &props(0, Some("First"), vec![]));
    assert_eq!(count_tag(&head, "title"), 1);
    assert_eq!(head.nodes[0].text.as_deref(), Some("First"));
    mount(&mut registry, &mut head, &props(0, Some("Second"), vec![]));
    assert_eq!(count_tag(&head, "title"), 1);
    assert_eq!(head.nodes[0].text.as_deref(), Some("Second"));
}

#[test]
fn title_survives_unmount() {
    let mut registry = Registry::new();
    let mut head = Head::new();
    let p = props(0, Some("Kept"), vec![icon_link()]);
    mount(&mut registry, &mut head, &p);
    unmount(&mut registry, &mut head, &p);
    assert_eq!(head.nodes.len(), 1);
    assert_eq!(head.nodes[0].tag, "title");
    assert_eq!(head.nodes[0].text.as_deref(), Some("Kept"));
}

#[test]
fn title_pass_without_registry() {
    let p = props(0, Some("Only"), vec![icon_link()]);
    let actions = p.title_pass();
    assert_eq!(actions.len(), 1);
    assert!(matches!(&actions[0], HeadAction::SetTitle { text } if text == "Only"));
    assert!(props(0, None, vec![]).title_pass().is_empty());
}

#[test]
fn style_content_and_stamp() {
    let mut registry = Registry::new();
    let mut head = Head::new();
    mount(&mut registry, &mut head, &props(0, None, vec![style_node()]));
    let expected = identity(0, &descriptor("style", &[], Some("body{color:blue}")));
    let styles: Vec<_> = head.nodes.iter().filter(|n| n.tag == "style").collect();
    assert_eq!(styles.len(), 1);
    assert_eq!(styles[0].text.as_deref(), Some("body{color:blue}"));
    assert_eq!(styles[0].stamp, Some(expected));
}

#[test]
fn first_unmount_removes_shared_node() {
    let mut registry = Registry::new();
    let mut head = Head::new();
    let a = props(0, None, vec![icon_link()]);
    let b = props(0, None, vec![icon_link()]);
    mount(&mut registry, &mut head, &a);
    mount(&mut registry, &mut head, &b);
    let id = identity(0, &descriptor("link", &[("rel", "icon"), ("href", "/favicon.ico")], None));
    assert_eq!(head.count_stamped(id), 1);
    unmount(&mut registry, &mut head, &a);
    assert_eq!(head.count_stamped(id), 0);
    assert!(!registry.contains(id));
}

#[test]
fn unmount_without_children_does_nothing() {
    let mut registry = Registry::new();
    assert!(registry.insert_if_absent(3));
    let p = HelmetProps::new(0, None, None);
    assert!(p.teardown(&mut registry).is_empty());
    assert!(registry.contains(3));
    assert!(Helmet(&mut registry, &p).is_empty());
}

#[test]
fn teardown_lists_every_identity_in_order() {
    let mut registry = Registry::new();
    let p = props(4, None, vec![icon_link(), text("x"), style_node()]);
    let actions = p.teardown(&mut registry);
    let link = identity(4, &descriptor("link", &[("rel", "icon"), ("href", "/favicon.ico")], None));
    let style = identity(4, &descriptor("style", &[], Some("body{color:blue}")));
    assert_eq!(actions.len(), 2);
    assert!(matches!(actions[0], HeadAction::RemoveStamped { identity } if identity == link));
    assert!(matches!(actions[1], HeadAction::RemoveStamped { identity } if identity == style));
}

#[test]
fn appended_element_keeps_attributes() {
    let mut registry = Registry::new();
    let mut head = Head::new();
    mount(&mut registry, &mut head, &props(0, None, vec![icon_link()]));
    assert_eq!(head.nodes.len(), 1);
    assert_eq!(head.nodes[0].tag, "link");
    assert_eq!(head.nodes[0].attributes, vec![(s("rel"), s("icon")), (s("href"), s("/favicon.ico"))]);
    assert_eq!(head.nodes[0].text, None);
}
