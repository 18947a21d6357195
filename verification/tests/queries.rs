use frontest::dom::{Attribute, Document, Element, ElementKind, Node};
use frontest::query::{
    element_to_aria_roles, AmbiguousMatch, HasLabel, HasPlaceholder, HasRole, HasText, Joinable,
    Matcher, Not, Query,
};

fn attributes(pairs: &[(&str, &str)]) -> Vec<Attribute> {
    pairs
        .iter()
        .map(|(name, value)| Attribute { name: name.to_string(), value: value.to_string() })
        .collect()
}

fn element(parent: Option<usize>, tag: &str, kind: ElementKind, attrs: &[(&str, &str)], text: &str) -> Node {
    Node {
        parent,
        element: Some(kind),
        tag: tag.to_string(),
        attributes: attributes(attrs),
        text_content: text.to_string(),
        inner_text: text.to_string(),
        labels: Vec::new(),
        connected: true,
    }
}

fn text(parent: usize, data: &str) -> Node {
    Node {
        parent: Some(parent),
        element: None,
        tag: String::new(),
        attributes: Vec::new(),
        text_content: data.to_string(),
        inner_text: String::new(),
        labels: Vec::new(),
        connected: true,
    }
}

fn input(parent: usize, attrs: &[(&str, &str)]) -> Node {
    let kind = ElementKind::Input { input_type: "text".to_string(), placeholder: String::new() };
    element(Some(parent), "INPUT", kind, attrs, "")
}

fn add(doc: &mut Document, node: Node) -> usize {
    doc.push(node).unwrap()
}

fn ids(found: &[Element]) -> Vec<usize> {
    found.iter().map(|e| e.id()).collect()
}

fn get_id<M: Matcher>(root: &Element, rules: &M) -> Option<usize> {
    match root.get(rules) {
        Ok(found) => found.map(|e| e.id()),
        Err(AmbiguousMatch { count }) => panic!("Found more than one element: {}", count),
    }
}

/// `<div><div><label>.. <button>red</button></label><label>.. <button>blue</button></label></div></div>`
#[test]
fn doctest_basic_usage() {
    let mut doc = Document::new();
    let div = add(&mut doc, element(None, "DIV", ElementKind::Other, &[], "Take the red pill Take the blue pill"));
    let inner = add(&mut doc, element(Some(div), "DIV", ElementKind::Other, &[], "Take the red pill Take the blue pill"));
    let first = add(&mut doc, element(Some(inner), "LABEL", ElementKind::Label, &[], "I will start testing my frontend! Take the red pill"));
    add(&mut doc, text(first, "\n I will start testing my frontend!\n "));
    let mut red = element(Some(first), "BUTTON", ElementKind::Button, &[], "Take the red pill");
    red.labels = vec!["\n I will start testing my frontend!\n Take the red pill\n".to_string()];
    let red = add(&mut doc, red);
    add(&mut doc, text(red, "Take the red pill"));
    let second = add(&mut doc, element(Some(inner), "LABEL", ElementKind::Label, &[], "It's too problematic dude... Take the blue pill"));
    add(&mut doc, text(second, "\n It's too problematic dude...\n "));
    let mut blue = element(Some(second), "BUTTON", ElementKind::Button, &[], "Take the blue pill");
    blue.labels = vec!["\n It's too problematic dude...\n Take the blue pill\n".to_string()];
    let blue = add(&mut doc, blue);
    add(&mut doc, text(blue, "Take the blue pill"));

    let root = doc.element(div).unwrap();
    let go_to_matrix = root
        .get(&HasRole("button").and(Not(HasLabel("It's too problematic dude..."))))
        .ok()
        .unwrap()
        .unwrap();
    assert_eq!(go_to_matrix.id(), red);
    assert_eq!(get_id(&root, &HasRole("button").and(HasLabel("It's too problematic dude..."))), Some(blue));
}

fn links() -> (Document, usize, usize, usize) {
    let mut doc = Document::new();
    let div = add(&mut doc, element(None, "DIV", ElementKind::Other, &[], "what\n\nis\nthis"));
    let inner = add(&mut doc, element(Some(div), "DIV", ElementKind::Other, &[], "what\n\nis\nthis"));
    add(&mut doc, element(Some(inner), "P", ElementKind::Other, &[], "what"));
    let a = add(&mut doc, element(Some(inner), "A", ElementKind::Other, &[("href", "/foo")], "is"));
    let button = add(&mut doc, element(Some(inner), "BUTTON", ElementKind::Button, &[], "this"));
    (doc, div, a, button)
}

#[test]
fn doctest_not() {
    let (doc, div, a, _) = links();
    let root = doc.element(div).unwrap();
    let link = root.get(&HasText("is").and(Not(HasRole("button")))).ok().unwrap().unwrap();
    assert_eq!(link.id(), a);
    assert_eq!(link.node().get_attribute("href").unwrap(), "/foo");
}

#[test]
fn text_alone_finds_link_and_button() {
    let (doc, div, a, button) = links();
    let root = doc.element(div).unwrap();
    assert_eq!(ids(&root.get_all(&HasText("is"))), vec![a, button]);
    assert_eq!(ids(&root.get_all(&HasText("is").and(HasRole("button")))), vec![button]);
}

fn buttons() -> (Document, usize, usize, usize) {
    let mut doc = Document::new();
    let div = add(&mut doc, element(None, "DIV", ElementKind::Other, &[], "I am"));
    let inner = add(&mut doc, element(Some(div), "DIV", ElementKind::Other, &[], "I am"));
    let first = add(&mut doc, element(Some(inner), "BUTTON", ElementKind::Button, &[], "I am"));
    let mut hidden = element(Some(inner), "BUTTON", ElementKind::Button, &[("style", "visibility: hidden;")], "");
    hidden.text_content = "Blue".to_string();
    let hidden = add(&mut doc, hidden);
    (doc, div, first, hidden)
}

#[test]
fn doctest_has_text() {
    let (doc, div, first, _) = buttons();
    let root = doc.element(div).unwrap();
    assert!(root.get(&HasText("I am")).ok().unwrap().is_some());
    assert!(root.get(&HasText("i am")).ok().unwrap().is_none());
    assert!(root.get(&HasText("Blue")).ok().unwrap().is_none());
    assert_eq!(get_id(&root, &HasText("I am")), Some(first));
}

#[test]
fn has_text_prefers_the_innermost_element() {
    let (doc, div, first, _) = buttons();
    let root = doc.element(div).unwrap();
    // Both wrapping elements show the text too, and neither is found.
    assert_eq!(ids(&root.get_all(&HasText("I am"))), vec![first]);
    assert_eq!(ids(&root.get_all(&HasText("am"))), vec![first]);
    assert!(!HasText("I am").matches(&root));
    assert!(HasText("I am").matches(&doc.element(first).unwrap()));
}

#[test]
fn has_text_ignores_children_that_are_no_html_elements() {
    let mut doc = Document::new();
    let p = add(&mut doc, element(None, "P", ElementKind::Other, &[], "circle"));
    let mut svg = text(p, "circle");
    svg.inner_text = "circle".to_string();
    add(&mut doc, svg);
    assert!(HasText("circle").matches(&doc.element(p).unwrap()));
}

#[test]
fn has_text_looks_at_every_child() {
    let mut doc = Document::new();
    let div = add(&mut doc, element(None, "DIV", ElementKind::Other, &[], "one two"));
    let p = add(&mut doc, element(Some(div), "P", ElementKind::Other, &[], "one"));
    let em = add(&mut doc, element(Some(p), "EM", ElementKind::Other, &[], "one"));
    add(&mut doc, text(em, "one"));
    let span = add(&mut doc, element(Some(div), "SPAN", ElementKind::Other, &[], "two"));
    add(&mut doc, text(span, "two"));
    let after = add(&mut doc, element(None, "DIV", ElementKind::Other, &[], "one two"));
    let root = doc.element(div).unwrap();
    // The last child stands behind the whole of the first.
    assert!(!HasText("two").matches(&root));
    assert!(!HasText("one").matches(&root));
    assert!(HasText("one two").matches(&root));
    assert!(HasText("two").matches(&doc.element(span).unwrap()));
    assert!(!HasText("one").matches(&doc.element(p).unwrap()));
    assert!(HasText("one").matches(&doc.element(em).unwrap()));
    // What stands behind the element is no child of it.
    assert!(HasText("one two").matches(&doc.element(after).unwrap()));
    assert_eq!(ids(&root.get_all(&HasText("o"))), vec![em, span]);
}

#[test]
fn has_text_with_empty_text() {
    let mut doc = Document::new();
    let div = add(&mut doc, element(None, "DIV", ElementKind::Other, &[], "abc"));
    let p = add(&mut doc, element(Some(div), "P", ElementKind::Other, &[], "abc"));
    let root = doc.element(div).unwrap();
    assert_eq!(ids(&root.get_all(&HasText(""))), vec![p]);
    assert!(!HasText("").matches(&root));
}

#[test]
fn doctest_has_role() {
    let mut doc = Document::new();
    let div = add(&mut doc, element(None, "DIV", ElementKind::Other, &[], "RustFun"));
    let inner = add(&mut doc, element(Some(div), "DIV", ElementKind::Other, &[], "RustFun"));
    let a = add(&mut doc, element(Some(inner), "BUTTON", ElementKind::Button, &[], "Rust"));
    let kind = ElementKind::Input { input_type: "button".to_string(), placeholder: String::new() };
    let b = add(&mut doc, element(Some(inner), "INPUT", kind, &[("type", "button")], ""));
    let c = add(&mut doc, element(Some(inner), "DIV", ElementKind::Other, &[("role", "button")], "Fun"));
    let root = doc.element(div).unwrap();
    assert_eq!(root.get_all(&HasRole("button")).len(), 3);
    assert_eq!(ids(&root.get_all(&HasRole("button"))), vec![a, b, c]);
    match root.get(&HasRole("button")) {
        Err(AmbiguousMatch { count }) => assert_eq!(count, 3),
        Ok(_) => panic!("three buttons are no unique match"),
    }
}

#[test]
fn assigned_role_does_not_take_away_the_deduced_one() {
    let mut doc = Document::new();
    let button = add(&mut doc, element(None, "BUTTON", ElementKind::Button, &[("role", "link")], ""));
    let e = doc.element(button).unwrap();
    assert!(HasRole("button").matches(&e));
    assert!(HasRole("link").matches(&e));
    assert!(!HasRole("Link").matches(&e));
    assert!(!HasRole("").matches(&e));
}

fn labels() -> (Document, usize, Vec<usize>) {
    let mut doc = Document::new();
    let div = add(&mut doc, element(None, "DIV", ElementKind::Other, &[], ""));
    // for and id attributes
    let first = add(&mut doc, element(Some(div), "LABEL", ElementKind::Label, &[("for", "best-language")], "Type rust"));
    add(&mut doc, text(first, "Type rust"));
    let mut explicit = input(div, &[("id", "best-language")]);
    explicit.labels = vec!["Type rust".to_string()];
    let explicit = add(&mut doc, explicit);
    // implicit labels
    let second = add(&mut doc, element(Some(div), "LABEL", ElementKind::Label, &[], "Type rust "));
    add(&mut doc, text(second, "Type rust "));
    let mut meter = element(Some(second), "METER", ElementKind::Meter, &[], "");
    meter.labels = vec!["Type rust ".to_string()];
    let meter = add(&mut doc, meter);
    // aria-labelledby attributes
    let third = add(&mut doc, element(Some(div), "LABEL", ElementKind::Label, &[("id", "x2")], "Type rust"));
    add(&mut doc, text(third, "Type rust"));
    let referring = add(&mut doc, input(div, &[("aria-labelledby", "x2")]));
    // aria-label attributes are not supported as they are not visible to user
    add(&mut doc, input(div, &[("aria-label", "Type rust")]));
    (doc, div, vec![explicit, meter, referring])
}

#[test]
fn has_label_finds_the_three_labelled_controls() {
    let (doc, div, expected) = labels();
    let root = doc.element(div).unwrap();
    let found = root.get_all(&HasLabel("Type rust"));
    assert_eq!(found.len(), 3);
    assert_eq!(ids(&found), expected);
}

#[test]
fn doctest_has_label() {
    let (mut doc, div, mut expected) = labels();
    // wrapped implicit labels
    let label = add(&mut doc, element(Some(div), "LABEL", ElementKind::Label, &[], "Type rust"));
    add(&mut doc, text(label, "\n  "));
    add(&mut doc, element(Some(label), "SPAN", ElementKind::Other, &[], "Type rust"));
    add(&mut doc, text(label, "\n  "));
    let mut button = element(Some(label), "BUTTON", ElementKind::Button, &[], "");
    button.labels = vec!["\n  Type rust\n  \n".to_string()];
    let button = add(&mut doc, button);
    expected.push(button);
    let root = doc.element(div).unwrap();
    assert_eq!(root.get_all(&HasLabel("Type rust")).len(), 4);
    assert_eq!(ids(&root.get_all(&HasLabel("Type rust"))), expected);
}

#[test]
fn has_label_compares_the_whole_text() {
    let (doc, div, _) = labels();
    let root = doc.element(div).unwrap();
    // Only the control that refers to a label by its id is found: the text of
    // that label is not compared.
    assert_eq!(root.get_all(&HasLabel("Type")).len(), 1);
    assert_eq!(root.get_all(&HasLabel("type rust")).len(), 1);
}

#[test]
fn has_label_leaves_hidden_inputs_out() {
    let mut doc = Document::new();
    let div = add(&mut doc, element(None, "DIV", ElementKind::Other, &[("id", "top")], ""));
    let kind = ElementKind::Input { input_type: "hidden".to_string(), placeholder: String::new() };
    let mut hidden = element(Some(div), "INPUT", kind, &[("aria-labelledby", "top")], "");
    hidden.labels = vec!["Name".to_string()];
    let hidden = add(&mut doc, hidden);
    let mut shown = input(div, &[("aria-labelledby", "top")]);
    shown.labels = vec!["Name".to_string()];
    let shown = add(&mut doc, shown);
    assert!(!HasLabel("Name").matches(&doc.element(hidden).unwrap()));
    assert!(HasLabel("Name").matches(&doc.element(shown).unwrap()));
}

#[test]
fn has_label_asks_for_a_labelable_kind() {
    let mut doc = Document::new();
    let label = add(&mut doc, element(None, "LABEL", ElementKind::Label, &[("id", "l")], "Name"));
    add(&mut doc, text(label, "Name"));
    let mut span = element(Some(label), "SPAN", ElementKind::Other, &[("aria-labelledby", "l")], "");
    span.labels = vec!["Name".to_string()];
    let span = add(&mut doc, span);
    let kinds = vec![
        ElementKind::Button,
        ElementKind::Meter,
        ElementKind::Output,
        ElementKind::Progress,
        ElementKind::Select,
        ElementKind::TextArea { placeholder: String::new() },
    ];
    assert!(!HasLabel("Name").matches(&doc.element(span).unwrap()));
    assert!(!HasLabel("Name").matches(&doc.element(label).unwrap()));
    for kind in kinds {
        let control = add(&mut doc, element(Some(label), "X", kind, &[], ""));
        assert!(HasLabel("Name").matches(&doc.element(control).unwrap()));
        assert!(!HasLabel("Nam").matches(&doc.element(control).unwrap()));
    }
}

#[test]
fn wrapping_label_counts_only_other_children_of_a_label() {
    let mut doc = Document::new();
    let div = add(&mut doc, element(None, "DIV", ElementKind::Other, &[], ""));
    add(&mut doc, text(div, "Name"));
    let outside = add(&mut doc, element(Some(div), "BUTTON", ElementKind::Button, &[], ""));
    let label = add(&mut doc, element(Some(div), "LABEL", ElementKind::Label, &[], ""));
    let mut own = element(Some(label), "BUTTON", ElementKind::Button, &[], "");
    own.text_content = " Name ".to_string();
    let own = add(&mut doc, own);
    let other = add(&mut doc, element(Some(label), "BUTTON", ElementKind::Button, &[], ""));
    // The parent of the first button is no label.
    assert!(!HasLabel("Name").matches(&doc.element(outside).unwrap()));
    // The second button reads so itself, and nothing beside it does.
    assert!(!HasLabel("Name").matches(&doc.element(own).unwrap()));
    // The third stands beside the second.
    assert!(HasLabel("Name").matches(&doc.element(other).unwrap()));
    assert!(!HasLabel(" Name ").matches(&doc.element(other).unwrap()));
}

#[test]
fn wrapping_label_looks_at_every_child() {
    let mut doc = Document::new();
    let label = add(&mut doc, element(None, "LABEL", ElementKind::Label, &[], ""));
    let first = add(&mut doc, element(Some(label), "BUTTON", ElementKind::Button, &[], ""));
    let span = add(&mut doc, element(Some(label), "SPAN", ElementKind::Other, &[], ""));
    let inner = add(&mut doc, element(Some(span), "BUTTON", ElementKind::Button, &[], ""));
    add(&mut doc, text(inner, "deep"));
    add(&mut doc, text(label, "  Name\n"));
    let last = add(&mut doc, element(Some(label), "BUTTON", ElementKind::Button, &[], ""));
    add(&mut doc, text(last, "own"));
    let stray = add(&mut doc, element(None, "BUTTON", ElementKind::Button, &[], ""));
    assert!(HasLabel("Name").matches(&doc.element(first).unwrap()));
    assert!(HasLabel("Name").matches(&doc.element(last).unwrap()));
    // The parent of the inner button is no label.
    assert!(!HasLabel("Name").matches(&doc.element(inner).unwrap()));
    // The text of a grandchild of the label is not looked at.
    assert!(!HasLabel("deep").matches(&doc.element(first).unwrap()));
    assert!(!HasLabel("own").matches(&doc.element(last).unwrap()));
    assert!(!HasLabel("Name").matches(&doc.element(stray).unwrap()));
}

#[test]
fn referenced_label_must_be_in_the_document() {
    let mut doc = Document::new();
    let div = add(&mut doc, element(None, "DIV", ElementKind::Other, &[], ""));
    let mut detached = element(Some(div), "SPAN", ElementKind::Other, &[("id", "away")], "");
    detached.connected = false;
    add(&mut doc, detached);
    add(&mut doc, element(Some(div), "SPAN", ElementKind::Other, &[("id", "")], ""));
    add(&mut doc, element(Some(div), "SPAN", ElementKind::Other, &[("id", "here")], ""));
    let away = add(&mut doc, input(div, &[("aria-labelledby", "away")]));
    let empty = add(&mut doc, input(div, &[("aria-labelledby", "")]));
    let missing = add(&mut doc, input(div, &[("aria-labelledby", "nowhere")]));
    let here = add(&mut doc, input(div, &[("aria-labelledby", "here")]));
    assert!(!HasLabel("any").matches(&doc.element(away).unwrap()));
    assert!(!HasLabel("any").matches(&doc.element(empty).unwrap()));
    assert!(!HasLabel("any").matches(&doc.element(missing).unwrap()));
    assert!(HasLabel("any").matches(&doc.element(here).unwrap()));
}

#[test]
fn doctest_has_placeholder() {
    let mut doc = Document::new();
    let div = add(&mut doc, element(None, "DIV", ElementKind::Other, &[], "tests rocks"));
    let inner = add(&mut doc, element(Some(div), "DIV", ElementKind::Other, &[], "tests rocks"));
    add(&mut doc, element(Some(inner), "BUTTON", ElementKind::Button, &[("placeholder", "tests rocks")], "tests rocks"));
    let kind = ElementKind::Input { input_type: "text".to_string(), placeholder: "tests rocks".to_string() };
    let field = add(&mut doc, element(Some(inner), "INPUT", kind, &[("placeholder", "tests rocks")], ""));
    let root = doc.element(div).unwrap();
    let found = root.get(&HasPlaceholder("tests")).ok().unwrap().unwrap();
    assert_eq!(found.node().tag, "INPUT");
    assert_eq!(found.id(), field);
    assert!(root.get(&HasPlaceholder("Tests")).ok().unwrap().is_none());
}

#[test]
fn placeholder_of_a_text_area() {
    let mut doc = Document::new();
    let kind = ElementKind::TextArea { placeholder: "Tell us more".to_string() };
    let area = add(&mut doc, element(None, "TEXTAREA", kind, &[], ""));
    let bare = add(&mut doc, input(area, &[]));
    let e = doc.element(area).unwrap();
    assert!(HasPlaceholder("us").matches(&e));
    assert!(HasPlaceholder("Tell us more").matches(&e));
    assert!(HasPlaceholder("").matches(&e));
    assert!(!HasPlaceholder("Tell us more!").matches(&e));
    // An empty placeholder holds the empty text and nothing else.
    assert!(HasPlaceholder("").matches(&doc.element(bare).unwrap()));
    assert!(!HasPlaceholder("a").matches(&doc.element(bare).unwrap()));
}

#[test]
fn doctest_joinable() {
    let mut doc = Document::new();
    let div = add(&mut doc, element(None, "DIV", ElementKind::Other, &[], "I eat cookies"));
    let inner = add(&mut doc, element(Some(div), "DIV", ElementKind::Other, &[], "I eat cookies"));
    let button = add(&mut doc, element(Some(inner), "BUTTON", ElementKind::Button, &[], "I eat cookies"));
    let root = doc.element(div).unwrap();
    let found = root
        .get(
            &HasRole("button")
                .and(HasText("bananas").or(HasText("apples")))
                .or(HasText("cookies")),
        )
        .ok()
        .unwrap();
    assert!(found.is_some());
    assert_eq!(found.unwrap().id(), button);
}

#[test]
fn combinators_follow_boolean_algebra() {
    let (doc, div, a, button) = links();
    for id in [div, a, button] {
        let e = doc.element(id).unwrap();
        let p = HasText("is").matches(&e);
        let q = HasRole("button").matches(&e);
        assert_eq!(HasText("is").and(HasRole("button")).matches(&e), p && q);
        assert_eq!(HasText("is").or(HasRole("button")).matches(&e), p || q);
        assert_eq!(Not(HasText("is")).matches(&e), !p);
        assert_eq!(
            Not(HasText("is").and(HasRole("button"))).matches(&e),
            Not(HasText("is")).or(Not(HasRole("button"))).matches(&e)
        );
        assert_eq!(
            Not(HasText("is").or(HasRole("button"))).matches(&e),
            Not(HasText("is")).and(Not(HasRole("button"))).matches(&e)
        );
        assert_eq!(Not(Not(HasRole("button"))).matches(&e), q);
    }
    let e = doc.element(button).unwrap();
    assert!(HasText("is").and(HasRole("button")).matches(&e));
    assert!(!HasText("is").and(HasRole("button")).matches(&doc.element(a).unwrap()));
}

#[test]
fn get_fails_on_two_matches() {
    let mut doc = Document::new();
    let div = add(&mut doc, element(None, "DIV", ElementKind::Other, &[], ""));
    add(&mut doc, element(Some(div), "LI", ElementKind::Other, &[], "one"));
    add(&mut doc, element(Some(div), "LI", ElementKind::Other, &[], "two"));
    let root = doc.element(div).unwrap();
    match root.get(&HasRole("listitem")) {
        Err(AmbiguousMatch { count }) => assert_eq!(count, 2),
        Ok(_) => panic!("two siblings match"),
    }
    assert_eq!(root.get_all(&HasRole("listitem")).len(), 2);
}

#[test]
fn get_agrees_with_get_all() {
    let (doc, div, a, _) = links();
    let root = doc.element(div).unwrap();
    // no match
    assert!(root.get_all(&HasRole("heading")).is_empty());
    assert!(root.get(&HasRole("heading")).ok().unwrap().is_none());
    // one match
    assert_eq!(ids(&root.get_all(&HasRole("link"))), vec![a]);
    assert_eq!(get_id(&root, &HasRole("link")), Some(a));
    // several matches
    assert_eq!(root.get_all(&Not(HasRole("link"))).len(), 3);
    assert!(matches!(root.get(&Not(HasRole("link"))), Err(AmbiguousMatch { count: 3 })));
}

#[test]
fn get_all_gives_the_same_again() {
    let (doc, div, a, button) = links();
    let root = doc.element(div).unwrap();
    let first = ids(&root.get_all(&HasText("is")));
    let second = ids(&root.get_all(&HasText("is")));
    assert_eq!(first, second);
    assert_eq!(first, vec![a, button]);
}

#[test]
fn search_stays_below_the_root() {
    let mut doc = Document::new();
    let body = add(&mut doc, element(None, "BODY", ElementKind::Other, &[], ""));
    let before = add(&mut doc, element(Some(body), "NAV", ElementKind::Other, &[], ""));
    add(&mut doc, element(Some(before), "LI", ElementKind::Other, &[], ""));
    let list = add(&mut doc, element(Some(body), "UL", ElementKind::Other, &[("role", "listitem")], ""));
    let one = add(&mut doc, element(Some(list), "LI", ElementKind::Other, &[], ""));
    let em = add(&mut doc, element(Some(one), "EM", ElementKind::Other, &[("role", "listitem")], ""));
    add(&mut doc, text(em, "deep"));
    let two = add(&mut doc, element(Some(list), "LI", ElementKind::Other, &[], ""));
    add(&mut doc, element(Some(body), "LI", ElementKind::Other, &[], ""));
    let root = doc.element(list).unwrap();
    // Neither the root itself, nor what stands before or behind it.
    assert_eq!(ids(&root.get_all(&HasRole("listitem"))), vec![one, em, two]);
    assert_eq!(doc.element(body).unwrap().get_all(&HasRole("listitem")).len(), 6);
    assert!(doc.element(two).unwrap().get_all(&Not(HasRole("none"))).is_empty());
}

#[test]
fn nodes_that_are_no_html_elements_are_never_found() {
    let mut doc = Document::new();
    let div = add(&mut doc, element(None, "DIV", ElementKind::Other, &[], ""));
    let mut svg = text(div, "");
    svg.tag = "svg".to_string();
    svg.attributes = attributes(&[("role", "img")]);
    add(&mut doc, svg);
    let img = add(&mut doc, element(Some(div), "IMG", ElementKind::Other, &[], ""));
    let root = doc.element(div).unwrap();
    assert_eq!(ids(&root.get_all(&HasRole("img"))), vec![img]);
}

#[test]
fn descends_from_follows_the_parents() {
    let (doc, div, a, button) = links();
    let link = doc.element(a).unwrap();
    assert!(link.descends_from(div));
    assert!(link.descends_from(1));
    assert!(!link.descends_from(2));
    assert!(!link.descends_from(a));
    assert!(!link.descends_from(button));
    assert!(!link.descends_from(99));
    assert!(!doc.element(div).unwrap().descends_from(div));
    assert_eq!(link.parent().unwrap().id(), 1);
    assert!(doc.element(div).unwrap().parent().is_none());
}

#[test]
fn push_asks_for_a_parent_that_is_there() {
    let mut doc = Document::new();
    assert_eq!(doc.len(), 0);
    assert!(doc.element(0).is_none());
    assert_eq!(doc.push(element(Some(0), "P", ElementKind::Other, &[], "")), None);
    assert_eq!(doc.len(), 0);
    assert_eq!(doc.push(element(None, "DIV", ElementKind::Other, &[], "")), Some(0));
    assert_eq!(doc.push(element(Some(1), "P", ElementKind::Other, &[], "")), None);
    assert_eq!(doc.push(element(Some(0), "P", ElementKind::Other, &[], "x")), Some(1));
    assert_eq!(doc.len(), 2);
    assert_eq!(doc.node(1).tag, "P");
    assert_eq!(doc.node(1).inner_text, "x");
    assert!(doc.element(1).is_some());
    assert!(doc.element(2).is_none());
    assert_eq!(doc.element(1).unwrap().document().len(), 2);
}

#[test]
fn push_keeps_document_order() {
    let mut doc = Document::new();
    assert!(doc.last().is_none());
    let div = add(&mut doc, element(None, "DIV", ElementKind::Other, &[], ""));
    let p = add(&mut doc, element(Some(div), "P", ElementKind::Other, &[], ""));
    let em = add(&mut doc, element(Some(p), "EM", ElementKind::Other, &[], ""));
    assert_eq!((div, p, em), (0, 1, 2));
    // below a node that the last node lies below
    assert_eq!(doc.push(text(p, "a")), Some(3));
    assert_eq!(doc.push(text(div, "b")), Some(4));
    // the paragraph is closed: nothing can be added to it any more
    assert_eq!(doc.push(text(p, "c")), None);
    assert_eq!(doc.push(text(em, "c")), None);
    assert_eq!(doc.len(), 5);
    // below the last node
    assert_eq!(doc.push(text(4, "d")), Some(5));
    // a new tree closes the one before
    assert_eq!(doc.push(element(None, "DIV", ElementKind::Other, &[], "")), Some(6));
    assert_eq!(doc.push(text(div, "e")), None);
    assert_eq!(doc.push(text(7, "e")), None);
    assert_eq!(doc.push(text(6, "e")), Some(7));
    assert_eq!(doc.last().unwrap().id(), 7);
    assert_eq!(doc.len(), 8);
    assert_eq!(doc.node(7).text_content, "e");
    assert_eq!(doc.node(3).text_content, "a");
}

#[test]
fn get_attribute_takes_the_first_of_a_name() {
    let node = element(None, "A", ElementKind::Other, &[("href", "/a"), ("id", "x"), ("href", "/b")], "");
    assert_eq!(node.get_attribute("href"), Some("/a"));
    assert_eq!(node.get_attribute("id"), Some("x"));
    assert_eq!(node.get_attribute("HREF"), None);
    assert_eq!(node.get_attribute(""), None);
    assert!(node.is_html_element());
    assert!(!node.is_label_element());
    assert!(!node.is_child_of(0));
    let child = element(Some(3), "LABEL", ElementKind::Label, &[], "");
    assert!(child.is_label_element());
    assert!(child.is_child_of(3));
    assert!(!child.is_child_of(2));
    assert!(child.hangs_from(3));
    assert!(child.hangs_from(0));
    assert!(!child.hangs_from(4));
    assert!(!node.hangs_from(0));
}

#[test]
fn roles_of_an_element_in_a_document() {
    let mut doc = Document::new();
    let table = add(&mut doc, element(None, "TABLE", ElementKind::Other, &[("scope", "row")], ""));
    let th = add(&mut doc, element(Some(table), "Th", ElementKind::Other, &[("scope", "row")], ""));
    let check = add(&mut doc, input(th, &[("type", "checkbox")]));
    assert_eq!(element_to_aria_roles(&doc.element(table).unwrap()), vec!["grid", "table"]);
    assert_eq!(element_to_aria_roles(&doc.element(th).unwrap()), vec!["rowheader"]);
    assert_eq!(element_to_aria_roles(&doc.element(check).unwrap()), vec!["checkbox"]);
}
