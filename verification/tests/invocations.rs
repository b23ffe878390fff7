use sel4_xml_types::grammar::Loc;
use sel4_xml_types::invocations::Api;
use sel4_xml_types::invocations::ApiElement;
use sel4_xml_types::invocations::DocLeaf;
use sel4_xml_types::invocations::ErrorElement;
use sel4_xml_types::invocations::InvocationGenError;
use sel4_xml_types::invocations::LeafNode;
use sel4_xml_types::invocations::Method;
use sel4_xml_types::invocations::Param;
use sel4_xml_types::invocations::Return;
use sel4_xml_types::xml::XmlNode;

fn elem(tag: &str, attrs: Vec<(&str, &str)>, children: Vec<XmlNode>) -> XmlNode {
    XmlNode::Element {
        tag: tag.to_string(),
        attrs: attrs
            .into_iter()
            .map(|(k, v)| (k.to_string(), v.to_string()))
            .collect(),
        children,
    }
}

fn text(t: &str) -> XmlNode {
    XmlNode::Text { text: t.to_string() }
}

#[test]
fn single_interface_method_param() {
    let root = elem(
        "api",
        vec![],
        vec![elem(
            "interface",
            vec![("name", "X")],
            vec![elem(
                "method",
                vec![("name", "Send"), ("id", "3")],
                vec![elem(
                    "param",
                    vec![("type", "int"), ("name", "n"), ("dir", "in")],
                    vec![],
                )],
            )],
        )],
    );
    let api = Api::try_from_root(&root).unwrap();
    assert_eq!(api.name, None);
    assert_eq!(api.label_prefix, None);
    assert_eq!(api.children.len(), 1);
    match &api.children[0] {
        ApiElement::Interface { name, manual_name, cap_desc, methods } => {
            assert_eq!(name, "X");
            assert_eq!(manual_name, &None);
            assert_eq!(cap_desc, &None);
            assert_eq!(methods.len(), 1);
            let m = &methods[0];
            assert_eq!(m.name, "Send");
            assert_eq!(m.id, "3");
            assert_eq!(m.condition, None);
            assert!(m.brief.is_empty());
            assert!(m.description.is_empty());
            assert!(m.return_value.is_empty());
            assert!(m.cap_param.is_none());
            assert_eq!(m.params.len(), 1);
            let p = &m.params[0];
            assert_eq!(p.typ, "int");
            assert_eq!(p.name, "n");
            assert_eq!(p.dir, "in");
            assert!(p.description.is_empty());
            assert!(p.errors.is_empty());
            assert!(m.errors.is_empty());
        }
        other => panic!("expected an interface, got {:?}", other),
    }
}

#[test]
fn cap_param_element_without_attribute_gives_none() {
    let method = elem(
        "method",
        vec![("name", "Send"), ("id", "1")],
        vec![elem("cap_param", vec![], vec![])],
    );
    let m = Method::try_from_node(&method).unwrap();
    assert!(m.cap_param.is_none());
    assert!(m.params.is_empty());
}

#[test]
fn cap_param_element_with_attribute_gives_payload() {
    let method = elem(
        "method",
        vec![("name", "Send"), ("id", "1")],
        vec![elem("cap_param", vec![("append_description", "extra words")], vec![])],
    );
    let m = Method::try_from_node(&method).unwrap();
    assert_eq!(m.cap_param.unwrap().append_description, "extra words");
}

#[test]
fn errorenumdesc_sole_return_child_is_marker() {
    let method = elem(
        "method",
        vec![("name", "Send"), ("id", "1")],
        vec![elem("return", vec![], vec![elem("errorenumdesc", vec![], vec![])])],
    );
    let m = Method::try_from_node(&method).unwrap();
    assert_eq!(m.return_value, vec![Return::ErrorEnumDesc]);
}

#[test]
fn unknown_root_child_fails_naming_it() {
    let root = elem("api", vec![], vec![elem("widget", vec![], vec![])]);
    let err = Api::try_from_root(&root).unwrap_err();
    assert_eq!(
        err,
        InvocationGenError::UnsupportedNodeType("widget".to_string(), Loc::ApiElement)
    );
}

#[test]
fn whitespace_and_comments_between_siblings_are_transparent() {
    let bare = elem(
        "api",
        vec![("name", "a")],
        vec![elem(
            "interface",
            vec![("name", "X")],
            vec![elem("method", vec![("name", "M"), ("id", "0")], vec![])],
        )],
    );
    let noisy = elem(
        "api",
        vec![("name", "a")],
        vec![
            text("\n  "),
            XmlNode::Comment,
            elem(
                "interface",
                vec![("name", "X")],
                vec![
                    XmlNode::Comment,
                    text("  \t"),
                    elem("method", vec![("name", "M"), ("id", "0")], vec![]),
                    text("\n"),
                ],
            ),
            text(" "),
        ],
    );
    let a1 = Api::try_from_root(&bare).unwrap();
    let a2 = Api::try_from_root(&noisy).unwrap();
    assert_eq!(a1, a2);
}

#[test]
fn parsing_twice_is_deterministic() {
    let root = elem(
        "api",
        vec![("label_prefix", "pfx")],
        vec![elem(
            "struct",
            vec![("name", "S")],
            vec![elem("member", vec![("name", "a")], vec![]), elem("member", vec![("name", "b")], vec![])],
        )],
    );
    let a1 = Api::try_from_root(&root).unwrap();
    let a2 = Api::try_from_root(&root).unwrap();
    assert_eq!(a1, a2);
    assert_eq!(a1.label_prefix.as_deref(), Some("pfx"));
    match &a1.children[0] {
        ApiElement::StructElem { name, members } => {
            assert_eq!(name, "S");
            assert_eq!(members, &vec!["a".to_string(), "b".to_string()]);
        }
        other => panic!("expected a struct, got {:?}", other),
    }
}

#[test]
fn param_description_attribute_and_child_are_additive_in_order() {
    let param = elem(
        "param",
        vec![
            ("type", "int"),
            ("name", "n"),
            ("dir", "in"),
            ("description", "from the attribute"),
        ],
        vec![elem("description", vec![], vec![text("from the child")])],
    );
    let p = Param::try_from_node(&param).unwrap();
    assert_eq!(
        p.description,
        vec![
            DocLeaf::Leaf(LeafNode::PCData("from the attribute".to_string())),
            DocLeaf::Leaf(LeafNode::PCData("from the child".to_string())),
        ]
    );
}

#[test]
fn error_element_description_attribute_and_child_are_additive() {
    let node = elem(
        "error",
        vec![("name", "E"), ("description", "first")],
        vec![elem("description", vec![], vec![text("second")])],
    );
    let e = ErrorElement::try_from_node(&node).unwrap();
    assert_eq!(e.name, "E");
    assert_eq!(
        e.description,
        vec![
            DocLeaf::Leaf(LeafNode::PCData("first".to_string())),
            DocLeaf::Leaf(LeafNode::PCData("second".to_string())),
        ]
    );
}

#[test]
fn missing_method_name_fails_naming_name() {
    let method = elem("method", vec![("id", "1")], vec![]);
    let err = Method::try_from_node(&method).unwrap_err();
    assert_eq!(err, InvocationGenError::Attribute("name".to_string(), Loc::Method));
}

#[test]
fn missing_method_id_fails_naming_id() {
    let method = elem("method", vec![("name", "Send")], vec![]);
    let err = Method::try_from_node(&method).unwrap_err();
    assert_eq!(err, InvocationGenError::Attribute("id".to_string(), Loc::Method));
}

#[test]
fn missing_param_dir_fails_naming_dir() {
    let param = elem("param", vec![("type", "int"), ("name", "n")], vec![]);
    let err = Param::try_from_node(&param).unwrap_err();
    assert_eq!(err, InvocationGenError::Attribute("dir".to_string(), Loc::Param));
}

#[test]
fn missing_error_element_name_fails_naming_name() {
    let node = elem("error", vec![("description", "d")], vec![]);
    let err = ErrorElement::try_from_node(&node).unwrap_err();
    assert_eq!(err, InvocationGenError::Attribute("name".to_string(), Loc::ErrorElement));
}

#[test]
fn missing_texttt_text_fails_naming_text() {
    let node = elem("texttt", vec![], vec![]);
    let err = LeafNode::try_from_node(&node).unwrap_err();
    assert_eq!(err, InvocationGenError::Attribute("text".to_string(), Loc::LeafNode));
}

#[test]
fn absent_brief_does_not_consume_the_description() {
    let method = elem(
        "method",
        vec![("name", "Send"), ("id", "1")],
        vec![elem("description", vec![], vec![text("words")])],
    );
    let m = Method::try_from_node(&method).unwrap();
    assert!(m.brief.is_empty());
    assert_eq!(
        m.description,
        vec![DocLeaf::Leaf(LeafNode::PCData("words".to_string()))]
    );
}

#[test]
fn brief_then_description_both_fill() {
    let method = elem(
        "method",
        vec![("name", "Send"), ("id", "1")],
        vec![
            elem("brief", vec![], vec![text("short")]),
            elem("description", vec![], vec![text("long")]),
        ],
    );
    let m = Method::try_from_node(&method).unwrap();
    assert_eq!(m.brief, vec![DocLeaf::Leaf(LeafNode::PCData("short".to_string()))]);
    assert_eq!(m.description, vec![DocLeaf::Leaf(LeafNode::PCData("long".to_string()))]);
}

#[test]
fn tag_dispatch_is_case_insensitive() {
    let root = elem(
        "Api",
        vec![],
        vec![
            elem("INTERFACE", vec![("name", "X")], vec![]),
            elem("Struct", vec![("name", "S")], vec![]),
        ],
    );
    let api = Api::try_from_root(&root).unwrap();
    assert_eq!(api.children.len(), 2);
    assert!(matches!(&api.children[0], ApiElement::Interface { .. }));
    assert!(matches!(&api.children[1], ApiElement::StructElem { .. }));
}

#[test]
fn docref_wraps_inline_leaves() {
    let node = elem(
        "docref",
        vec![],
        vec![
            text("see "),
            elem("texttt", vec![("text", "code")], vec![]),
            elem("shortref", vec![("sec", "7")], vec![]),
            elem("autoref", vec![("label", "lbl")], vec![]),
            elem("obj", vec![("name", "TCB")], vec![]),
        ],
    );
    let d = DocLeaf::try_from_node(&node).unwrap();
    assert_eq!(
        d,
        DocLeaf::DocRef(vec![
            LeafNode::PCData("see ".to_string()),
            LeafNode::TextTT("code".to_string()),
            LeafNode::ShortRef { sec: "7".to_string() },
            LeafNode::ShortRef { sec: "lbl".to_string() },
            LeafNode::Obj { name: "TCB".to_string() },
        ])
    );
}

#[test]
fn unknown_leaf_inside_brief_fails() {
    let method = elem(
        "method",
        vec![("name", "Send"), ("id", "1")],
        vec![elem("brief", vec![], vec![elem("widget", vec![], vec![])])],
    );
    let err = Method::try_from_node(&method).unwrap_err();
    assert_eq!(
        err,
        InvocationGenError::UnsupportedNodeType("widget".to_string(), Loc::LeafNode)
    );
}

#[test]
fn trailing_non_param_children_are_ignored() {
    let method = elem(
        "method",
        vec![("name", "Send"), ("id", "1")],
        vec![
            elem("param", vec![("type", "int"), ("name", "a"), ("dir", "in")], vec![]),
            elem("trailing", vec![], vec![]),
        ],
    );
    let m = Method::try_from_node(&method).unwrap();
    assert_eq!(m.params.len(), 1);
    assert_eq!(m.params[0].name, "a");
}

#[test]
fn order_of_interfaces_methods_and_params_is_preserved() {
    let root = elem(
        "api",
        vec![],
        vec![
            elem(
                "interface",
                vec![("name", "A")],
                vec![
                    elem("method", vec![("name", "M1"), ("id", "1")], vec![]),
                    elem(
                        "method",
                        vec![("name", "M2"), ("id", "2"), ("condition", "CONFIG_X")],
                        vec![
                            elem("param", vec![("type", "int"), ("name", "p"), ("dir", "in")], vec![]),
                            elem("param", vec![("type", "int"), ("name", "q"), ("dir", "out")], vec![]),
                        ],
                    ),
                ],
            ),
            elem(
                "interface",
                vec![("name", "B")],
                vec![elem("method", vec![("name", "M3"), ("id", "3")], vec![])],
            ),
        ],
    );
    let api = Api::try_from_root(&root).unwrap();
    let names: Vec<&str> = api
        .children
        .iter()
        .map(|c| match c {
            ApiElement::Interface { name, .. } => name.as_str(),
            ApiElement::StructElem { name, .. } => name.as_str(),
        })
        .collect();
    assert_eq!(names, vec!["A", "B"]);
    match &api.children[0] {
        ApiElement::Interface { methods, .. } => {
            assert_eq!(methods[0].name, "M1");
            assert_eq!(methods[1].name, "M2");
            assert_eq!(methods[1].condition.as_deref(), Some("CONFIG_X"));
            assert_eq!(methods[1].params[0].name, "p");
            assert_eq!(methods[1].params[1].name, "q");
        }
        other => panic!("expected an interface, got {:?}", other),
    }
}

#[test]
fn param_collects_error_elements() {
    let param = elem(
        "param",
        vec![("type", "int"), ("name", "n"), ("dir", "in")],
        vec![
            elem("error", vec![("name", "E1")], vec![]),
            text("  "),
            elem("error", vec![("name", "E2"), ("description", "boom")], vec![]),
        ],
    );
    let p = Param::try_from_node(&param).unwrap();
    assert_eq!(p.errors.len(), 2);
    assert_eq!(p.errors[0].name, "E1");
    assert_eq!(p.errors[1].name, "E2");
    assert_eq!(
        p.errors[1].description,
        vec![DocLeaf::Leaf(LeafNode::PCData("boom".to_string()))]
    );
}

#[test]
fn non_whitespace_text_under_api_is_unsupported() {
    let root = elem("api", vec![], vec![text("stray words")]);
    let err = Api::try_from_root(&root).unwrap_err();
    assert_eq!(err, InvocationGenError::UnsupportedNodeType(String::new(), Loc::ApiElement));
}
