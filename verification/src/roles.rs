//! The table of accessible roles.
//!
//! An aria role is the semantic meaning of an element. The role of an element
//! follows from its tag alone, but for `<input>`, where the `type` attribute
//! decides, and for `<th>`, where the `scope` attribute does.
//!
//! | Tag                             | Roles             |
//! |---------------------------------|-------------------|
//! | `<article>`                     | article           |
//! | `<button>`                      | button            |
//! | `<td>`                          | cell, gridcell    |
//! | `<select>`                      | combobox, listbox |
//! | `<menuitem>`                    | command, menuitem |
//! | `<dd>`                          | definition        |
//! | `<figure>`                      | figure            |
//! | `<form>`                        | form              |
//! | `<table>`                       | grid, table       |
//! | `<fieldset>`                    | group             |
//! | `<h1> <h2> <h3> <h4> <h5> <h6>` | heading           |
//! | `<img>`                         | img               |
//! | `<a> <link>`                    | link              |
//! | `<ol> <ul>`                     | list              |
//! | `<li>`                          | listitem          |
//! | `<nav>`                         | navigation        |
//! | `<option>`                      | option            |
//! | `<frame>`                       | region            |
//! | `<rel>`                         | roletype          |
//! | `<tr>`                          | row               |
//! | `<tbody> <tfoot> <thead>`       | rowgroup          |
//! | `<hr>`                          | separator         |
//! | `<dt> <dfn>`                    | term              |
//! | `<textarea>`                    | textbox           |
//! | `<input type=button>`           | button            |
//! | `<input type=checkbox>`         | checkbox          |
//! | `<input type=radio>`            | radio             |
//! | `<input type=search>`           | searchbox         |
//! | `<input type=text>`             | textbox           |
//! | `<th scope=row>`                | rowheader         |
//! | `<th>`                          | columnheader      |
use crate::dom::{Element, Node};
use crate::text::{lowercase, same_text, to_lowercase};
use vstd::prelude::*;

verus! {

/// The roles of an `<input>` whose `type` attribute is `input_type`.
pub open spec fn input_roles(input_type: Option<Seq<char>>) -> Seq<Seq<char>> {
    if input_type == Some("button"@) {
        seq!["button"@]
    } else if input_type == Some("checkbox"@) {
        seq!["checkbox"@]
    } else if input_type == Some("radio"@) {
        seq!["radio"@]
    } else if input_type == Some("search"@) {
        seq!["searchbox"@]
    } else if input_type == Some("text"@) {
        seq!["textbox"@]
    } else {
        seq![]
    }
}

/// The roles of a `<th>` whose `scope` attribute is `scope`.
pub open spec fn header_roles(scope: Option<Seq<char>>) -> Seq<Seq<char>> {
    if scope == Some("row"@) {
        seq!["rowheader"@]
    } else {
        seq!["columnheader"@]
    }
}

/// The roles of an element by its tag in lower case and, where the tag asks
/// for them, its `type` and `scope` attributes.
pub open spec fn roles_for(
    tag: Seq<char>,
    input_type: Option<Seq<char>>,
    scope: Option<Seq<char>>,
) -> Seq<Seq<char>> {
    if tag == "article"@ {
        seq!["article"@]
    } else if tag == "button"@ {
        seq!["button"@]
    } else if tag == "td"@ {
        seq!["cell"@, "gridcell"@]
    } else if tag == "select"@ {
        seq!["combobox"@, "listbox"@]
    } else if tag == "menuitem"@ {
        seq!["command"@, "menuitem"@]
    } else if tag == "dd"@ {
        seq!["definition"@]
    } else if tag == "figure"@ {
        seq!["figure"@]
    } else if tag == "form"@ {
        seq!["form"@]
    } else if tag == "table"@ {
        seq!["grid"@, "table"@]
    } else if tag == "fieldset"@ {
        seq!["group"@]
    } else if tag == "h1"@ || tag == "h2"@ || tag == "h3"@ || tag == "h4"@ || tag == "h5"@ || tag
        == "h6"@ {
        seq!["heading"@]
    } else if tag == "img"@ {
        seq!["img"@]
    } else if tag == "a"@ || tag == "link"@ {
        seq!["link"@]
    } else if tag == "ol"@ || tag == "ul"@ {
        seq!["list"@]
    } else if tag == "li"@ {
        seq!["listitem"@]
    } else if tag == "nav"@ {
        seq!["navigation"@]
    } else if tag == "option"@ {
        seq!["option"@]
    } else if tag == "frame"@ {
        seq!["region"@]
    } else if tag == "rel"@ {
        seq!["roletype"@]
    } else if tag == "tr"@ {
        seq!["row"@]
    } else if tag == "tbody"@ || tag == "tfoot"@ || tag == "thead"@ {
        seq!["rowgroup"@]
    } else if tag == "hr"@ {
        seq!["separator"@]
    } else if tag == "dt"@ || tag == "dfn"@ {
        seq!["term"@]
    } else if tag == "textarea"@ {
        seq!["textbox"@]
    } else if tag == "input"@ {
        input_roles(input_type)
    } else if tag == "th"@ {
        header_roles(scope)
    } else {
        seq![]
    }
}

/// The roles of a node: a function of its tag, whatever its case, and of its
/// `type` and `scope` attributes, and of nothing else.
pub open spec fn roles_of(node: Node) -> Seq<Seq<char>> {
    roles_for(lowercase(node.tag@), node.attribute("type"@), node.attribute("scope"@))
}

/// The characters of an optional string slice.
pub open spec fn chars_of(text: Option<&str>) -> Option<Seq<char>> {
    match text {
        Some(t) => Some(t@),
        None => None,
    }
}

/// The characters of each role of a list.
pub open spec fn names(roles: Seq<&'static str>) -> Seq<Seq<char>> {
    Seq::new(roles.len(), |i: int| roles[i]@)
}

fn no_role() -> (roles: Vec<&'static str>)
    ensures
        names(roles@) == Seq::<Seq<char>>::empty(),
{
    let roles: Vec<&'static str> = Vec::new();
    assert(names(roles@) =~= Seq::<Seq<char>>::empty());
    roles
}

fn one_role(role: &'static str) -> (roles: Vec<&'static str>)
    ensures
        names(roles@) == seq![role@],
{
    let mut roles: Vec<&'static str> = Vec::new();
    roles.push(role);
    assert(names(roles@) =~= seq![role@]);
    roles
}

fn two_roles(first: &'static str, second: &'static str) -> (roles: Vec<&'static str>)
    ensures
        names(roles@) == seq![first@, second@],
{
    let mut roles: Vec<&'static str> = Vec::new();
    roles.push(first);
    roles.push(second);
    assert(names(roles@) =~= seq![first@, second@]);
    roles
}

fn is_some_text(value: Option<&str>, text: &str) -> (same: bool)
    ensures
        same == (chars_of(value) == Some(text@)),
{
    match value {
        Some(v) => same_text(v, text),
        None => false,
    }
}

/// Looks the roles up by a tag in lower case and the values of the `type` and
/// `scope` attributes. A tag that the table does not hold has no role, and
/// neither has an `<input>` of a type that the table does not hold.
pub fn roles_for_tag(tag: &str, input_type: Option<&str>, scope: Option<&str>) -> (roles: Vec<
    &'static str,
>)
    ensures
        names(roles@) == roles_for(tag@, chars_of(input_type), chars_of(scope)),
{
    if same_text(tag, "article") {
        one_role("article")
    } else if same_text(tag, "button") {
        one_role("button")
    } else if same_text(tag, "td") {
        two_roles("cell", "gridcell")
    } else if same_text(tag, "select") {
        two_roles("combobox", "listbox")
    } else if same_text(tag, "menuitem") {
        two_roles("command", "menuitem")
    } else if same_text(tag, "dd") {
        one_role("definition")
    } else if same_text(tag, "figure") {
        one_role("figure")
    } else if same_text(tag, "form") {
        one_role("form")
    } else if same_text(tag, "table") {
        two_roles("grid", "table")
    } else if same_text(tag, "fieldset") {
        one_role("group")
    } else if same_text(tag, "h1") || same_text(tag, "h2") || same_text(tag, "h3") || same_text(
        tag,
        "h4",
    ) || same_text(tag, "h5") || same_text(tag, "h6") {
        one_role("heading")
    } else if same_text(tag, "img") {
        one_role("img")
    } else if same_text(tag, "a") || same_text(tag, "link") {
        one_role("link")
    } else if same_text(tag, "ol") || same_text(tag, "ul") {
        one_role("list")
    } else if same_text(tag, "li") {
        one_role("listitem")
    } else if same_text(tag, "nav") {
        one_role("navigation")
    } else if same_text(tag, "option") {
        one_role("option")
    } else if same_text(tag, "frame") {
        one_role("region")
    } else if same_text(tag, "rel") {
        one_role("roletype")
    } else if same_text(tag, "tr") {
        one_role("row")
    } else if same_text(tag, "tbody") || same_text(tag, "tfoot") || same_text(tag, "thead") {
        one_role("rowgroup")
    } else if same_text(tag, "hr") {
        one_role("separator")
    } else if same_text(tag, "dt") || same_text(tag, "dfn") {
        one_role("term")
    } else if same_text(tag, "textarea") {
        one_role("textbox")
    } else if same_text(tag, "input") {
        if is_some_text(input_type, "button") {
            one_role("button")
        } else if is_some_text(input_type, "checkbox") {
            one_role("checkbox")
        } else if is_some_text(input_type, "radio") {
            one_role("radio")
        } else if is_some_text(input_type, "search") {
            one_role("searchbox")
        } else if is_some_text(input_type, "text") {
            one_role("textbox")
        } else {
            no_role()
        }
    } else if same_text(tag, "th") {
        if is_some_text(scope, "row") {
            one_role("rowheader")
        } else {
            one_role("columnheader")
        }
    } else {
        no_role()
    }
}

/// Returns the list of aria roles of an element.
///
/// The tag is compared in lower case, so `BUTTON` and `button` have the same
/// roles. Neither the ancestors of the element nor its siblings are looked at.
pub fn element_to_aria_roles(elem: &Element) -> (roles: Vec<&'static str>)
    ensures
        names(roles@) == roles_of(elem.data()),
{
    let node = elem.node();
    let tag = to_lowercase(node.tag.as_str());
    let input_type = node.get_attribute("type");
    let scope = node.get_attribute("scope");
    roles_for_tag(tag.as_str(), input_type, scope)
}

/// The roles of a node depend on its tag and on its `type` and `scope`
/// attributes alone: two nodes that agree in these have the same roles,
/// whatever else they hold and wherever they stand.
pub proof fn lemma_roles_depend_on_tag_and_attributes(a: Node, b: Node)
    requires
        a.tag@ == b.tag@,
        a.attribute("type"@) == b.attribute("type"@),
        a.attribute("scope"@) == b.attribute("scope"@),
    ensures
        roles_of(a) == roles_of(b),
{
}

} // verus!
