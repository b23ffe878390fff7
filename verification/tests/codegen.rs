use sel4_xml_types::codegen::Language;
use sel4_xml_types::codegen::convert_to_assembler_format;
use sel4_xml_types::codegen::invocation_labels;
use sel4_xml_types::codegen::language_arg;
use sel4_xml_types::codegen::map_api_neg_range;
use sel4_xml_types::invocations::Api;
use sel4_xml_types::xml::XmlNode;

fn elem(tag: &str, attrs: Vec<(&str, &str)>, children: Vec<XmlNode>) -> XmlNode {
    XmlNode::Element {
        tag: tag.to_string(),
        attrs: attrs
            .into_iter()
            .map(|(k, v)| (k.to_string(), v.to_string()))
            .collect(),
        children,
    }
}

#[test]
fn language_arg_recognizes_rust_and_c_case_insensitively() {
    assert!(matches!(language_arg("rust"), Ok(Language::Rust)));
    assert!(matches!(language_arg("RUST"), Ok(Language::Rust)));
    assert!(matches!(language_arg("c"), Ok(Language::C)));
    assert!(matches!(language_arg("C"), Ok(Language::C)));
}

#[test]
fn language_arg_rejects_unknown_language_naming_it() {
    let err = language_arg("GO").unwrap_err();
    assert_eq!(err, "Unrecognized language 'go'");
}

#[test]
fn assembler_format_single_chunk() {
    assert_eq!(convert_to_assembler_format("Send"), "SEND");
}

#[test]
fn assembler_format_splits_at_capitals() {
    assert_eq!(convert_to_assembler_format("ReplyRecv"), "REPLY_RECV");
}

#[test]
fn assembler_format_takes_double_capitals_together() {
    assert_eq!(convert_to_assembler_format("GetIPCBuffer"), "GET_IP_CBUFFER");
}

#[test]
fn assembler_format_skips_leading_lowercase() {
    assert_eq!(convert_to_assembler_format("sendIPC"), "IP_C");
}

#[test]
fn assembler_format_of_empty_is_empty() {
    assert_eq!(convert_to_assembler_format(""), "");
}

#[test]
fn neg_range_numbers_run_across_blocks() {
    let api = vec![
        (
            Some("CONFIG_A".to_string()),
            vec!["Alpha".to_string(), "Beta".to_string()],
        ),
        (None, vec!["Gamma".to_string()]),
    ];
    let out = map_api_neg_range(&api);
    assert_eq!(out.len(), 2);
    assert_eq!(out[0].0, "CONFIG_A");
    assert_eq!(
        out[0].1,
        vec![("Alpha".to_string(), -1isize), ("Beta".to_string(), -2isize)]
    );
    assert_eq!(out[1].0, "");
    assert_eq!(out[1].1, vec![("Gamma".to_string(), -3isize)]);
}

#[test]
fn neg_range_of_empty_input_is_empty() {
    let api: Vec<(Option<String>, Vec<String>)> = vec![];
    let out = map_api_neg_range(&api);
    assert!(out.is_empty());
}

#[test]
fn invocation_labels_flatten_in_document_order() {
    let root = elem(
        "api",
        vec![],
        vec![
            elem(
                "interface",
                vec![("name", "A")],
                vec![
                    elem("method", vec![("name", "M1"), ("id", "AlphaCall")], vec![]),
                    elem(
                        "method",
                        vec![("name", "M2"), ("id", "BetaCall"), ("condition", "CONFIG_B")],
                        vec![],
                    ),
                ],
            ),
            elem("struct", vec![("name", "S")], vec![]),
            elem(
                "interface",
                vec![("name", "B")],
                vec![elem("method", vec![("name", "M3"), ("id", "GammaCall")], vec![])],
            ),
        ],
    );
    let api = Api::try_from_root(&root).unwrap();
    let labels = invocation_labels(&api);
    assert_eq!(
        labels,
        vec![
            ("AlphaCall".to_string(), None),
            ("BetaCall".to_string(), Some("CONFIG_B".to_string())),
            ("GammaCall".to_string(), None),
        ]
    );
}
