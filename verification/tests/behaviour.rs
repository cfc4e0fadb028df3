use coral::descriptor::{
    DescriptorProto, EnumDescriptorProto, EnumValueDescriptorProto, FieldDescriptorProto,
    FileDescriptorProto, FileDescriptorSet, MethodDescriptorProto, ServiceDescriptorProto,
};
use coral::diff::{Change, DiffReport};
use coral::domain::{
    EnumValue, FieldInfo, GraphModel, MethodSignature, Node, NodeDetails, NodeType,
};
use coral::analyzer::util::{generate_fq_type, generate_node_id};
use coral::{Analyzer, MarkdownReporter};
use prost_types::field_descriptor_proto::{Label, Type};

fn field(name: &str, number: i32, code: Option<i32>, type_ref: Option<&str>) -> FieldDescriptorProto {
    FieldDescriptorProto {
        name: Some(name.to_string()),
        number: Some(number),
        label: None,
        type_code: code,
        type_ref: type_ref.map(|s| s.to_string()),
    }
}

fn message(name: &str, fields: Vec<FieldDescriptorProto>) -> DescriptorProto {
    DescriptorProto {
        name: Some(name.to_string()),
        field: fields,
        ..Default::default()
    }
}

fn file(name: &str, package: &str, messages: Vec<DescriptorProto>) -> FileDescriptorProto {
    FileDescriptorProto {
        name: Some(name.to_string()),
        package: Some(package.to_string()),
        message_type: messages,
        ..Default::default()
    }
}

fn message_fields(node: &Node) -> &Vec<FieldInfo> {
    match &node.details {
        NodeDetails::Message { fields } => fields,
        _ => panic!("not a message"),
    }
}

#[test]
fn field_types_and_labels_are_named() {
    let mut repeated = field("tags", 2, Some(Type::String as i32), None);
    repeated.label = Some(Label::Repeated as i32);
    let mut required = field("n", 3, Some(Type::Sint64 as i32), None);
    required.label = Some(Label::Required as i32);
    let fds = FileDescriptorSet {
        file: vec![file(
            "a.proto",
            "a",
            vec![message(
                "M",
                vec![
                    field("x", 1, Some(Type::Double as i32), None),
                    repeated,
                    required,
                    field("odd", 4, Some(99), None),
                    field("ref", 5, Some(Type::Message as i32), Some(".a.b.Other")),
                    field("empty_ref", 6, Some(Type::Bool as i32), Some("")),
                ],
            )],
        )],
    };
    let graph = Analyzer::new().analyze(&fds);
    let fields = message_fields(&graph.nodes[0]);
    let shown: Vec<(&str, &str)> = fields
        .iter()
        .map(|f| (f.field_type.as_str(), f.label.as_str()))
        .collect();
    assert_eq!(
        shown,
        vec![
            ("double", "optional"),
            ("string", "repeated"),
            ("sint64", "required"),
            ("unknown", "optional"),
            ("Other", "optional"),
            ("bool", "optional"),
        ]
    );
}

#[test]
fn nested_types_are_referenced_by_full_id() {
    let mut outer = message("Outer", vec![field("inner", 1, None, Some(".p.Outer.Inner"))]);
    outer.nested_type = vec![message("Inner", vec![])];
    outer.enum_type = vec![EnumDescriptorProto {
        name: Some("Kind".to_string()),
        value: vec![],
    }];
    outer.field.push(field("kind", 2, None, Some(".p.Outer.Kind")));
    let fds = FileDescriptorSet { file: vec![file("p.proto", "p", vec![outer])] };
    let graph = Analyzer::new().analyze(&fds);
    // Nested definitions get nodes of their own, after the enclosing one.
    let ids: Vec<&str> = graph.nodes.iter().map(|n| n.id.as_str()).collect();
    assert_eq!(ids, vec!["p.Outer", "p.Outer.Inner", "p.Outer.Kind"]);
    assert_eq!(graph.nodes[1].node_type, NodeType::Message);
    assert_eq!(graph.nodes[1].label, "Inner");
    assert_eq!(graph.nodes[1].package, "p");
    assert_eq!(graph.nodes[1].file, "p.proto");
    assert_eq!(graph.nodes[2].node_type, NodeType::Enum);
    assert_eq!(graph.nodes[2].label, "Kind");
    assert_eq!(graph.nodes[2].details, NodeDetails::Enum { values: vec![] });
    let targets: Vec<&str> = graph.edges.iter().map(|e| e.target.as_str()).collect();
    assert_eq!(targets, vec!["p.Outer.Inner", "p.Outer.Kind"]);
}

#[test]
fn nesting_deeper_than_the_limit_is_not_registered() {
    // Build Outer > L0 > L1 > ... > L32 (33 nested levels).
    let mut deepest = message("L32", vec![]);
    for level in (0..32).rev() {
        let mut m = message(&format!("L{level}"), vec![]);
        m.nested_type = vec![deepest];
        deepest = m;
    }
    let mut path = ".p.Outer".to_string();
    for level in 0..=32 {
        path.push_str(&format!(".L{level}"));
    }
    let registered = path[..path.rfind('.').unwrap()].to_string();
    let mut outer = message(
        "Outer",
        vec![field("deep", 1, None, Some(&registered)), field("too_deep", 2, None, Some(&path))],
    );
    outer.nested_type = vec![deepest];
    let fds = FileDescriptorSet { file: vec![file("p.proto", "p", vec![outer])] };
    let graph = Analyzer::new().analyze(&fds);
    assert_eq!(graph.edges.len(), 1);
    assert_eq!(graph.edges[0].target, registered[1..].to_string());
    // Outer and the 32 levels within the limit have nodes; L32 has none.
    assert_eq!(graph.nodes.len(), 33);
    assert_eq!(graph.nodes[32].id, registered[1..].to_string());
}

#[test]
fn nested_message_in_a_versioned_package_is_a_node() {
    let mut outer = message("Outer", vec![]);
    let mut inner = message(
        "Inner",
        vec![field("id", 1, Some(9), None), field("parent", 2, None, Some(".x.v1.Outer"))],
    );
    inner.nested_type = vec![message("Deeper", vec![])];
    outer.nested_type = vec![inner];
    let fds = FileDescriptorSet { file: vec![file("x/v1/x.proto", "x.v1", vec![outer])] };
    let graph = Analyzer::new().analyze(&fds);
    let ids: Vec<&str> = graph.nodes.iter().map(|n| n.id.as_str()).collect();
    assert_eq!(ids, vec!["x.v1.Outer", "x.v1.Outer.Inner", "x.v1.Outer.Inner.Deeper"]);
    let inner_fields = message_fields(&graph.nodes[1]);
    assert_eq!(inner_fields.len(), 2);
    assert_eq!(inner_fields[0].name, "id");
    // A field of a nested message is a reference from its node.
    assert_eq!(graph.edges.len(), 1);
    assert_eq!(graph.edges[0].source, "x.v1.Outer.Inner");
    assert_eq!(graph.edges[0].target, "x.v1.Outer");
    assert_eq!(graph.packages.len(), 1);
    assert_eq!(graph.packages[0].node_ids.len(), 3);
}

#[test]
fn external_nodes_are_built_from_the_type_name() {
    let fds = FileDescriptorSet {
        file: vec![
            file("buf/validate/validate.proto", "buf.validate", vec![message("Rules", vec![])]),
            file(
                "a.proto",
                "a",
                vec![message(
                    "M",
                    vec![
                        field("r", 1, None, Some(".buf.validate.Rules")),
                        field("r2", 2, None, Some(".buf.validate.Rules")),
                    ],
                )],
            ),
        ],
    };
    let graph = Analyzer::new().analyze(&fds);
    assert_eq!(graph.nodes.len(), 2);
    let ext = &graph.nodes[1];
    assert_eq!(ext.id, "buf.validate.Rules");
    assert_eq!(ext.node_type, NodeType::External);
    assert_eq!(ext.label, "Rules");
    assert_eq!(ext.package, "buf.validate");
    assert_eq!(ext.file, "buf/validate.proto");
    assert_eq!(ext.details, NodeDetails::External);
    // Two fields, one edge: edges are deduplicated.
    assert_eq!(graph.edges.len(), 1);
}

#[test]
fn services_show_known_request_and_response_definitions_once() {
    let fds = FileDescriptorSet {
        file: vec![FileDescriptorProto {
            name: Some("s.proto".to_string()),
            package: Some("s".to_string()),
            message_type: vec![message("Req", vec![field("id", 1, Some(Type::Int32 as i32), None)])],
            service: vec![ServiceDescriptorProto {
                name: Some("Svc".to_string()),
                method: vec![
                    MethodDescriptorProto {
                        name: Some("A".to_string()),
                        input_type: Some(".s.Req".to_string()),
                        output_type: Some(".s.Unknown".to_string()),
                    },
                    MethodDescriptorProto {
                        name: Some("B".to_string()),
                        input_type: Some(".s.Req".to_string()),
                        output_type: None,
                    },
                ],
            }],
            ..Default::default()
        }],
    };
    let graph = Analyzer::new().analyze(&fds);
    let svc = graph.nodes.iter().find(|n| n.id == "s.Svc").unwrap();
    match &svc.details {
        NodeDetails::Service { methods, messages } => {
            assert_eq!(methods.len(), 2);
            assert_eq!(methods[0].input_type, "Req");
            assert_eq!(methods[0].output_type, "Unknown");
            assert_eq!(methods[1].output_type, "");
            assert_eq!(messages.len(), 1);
            assert_eq!(messages[0].name, "Req");
            assert_eq!(messages[0].fields[0].field_type, "int32");
        }
        _ => panic!("not a service"),
    }
    // A->Req twice and B->Req collapse into one edge; Unknown has no node id.
    assert_eq!(graph.edges.len(), 1);
}

#[test]
fn analyzer_remembers_types_between_calls() {
    let mut analyzer = Analyzer::new();
    let first = FileDescriptorSet { file: vec![file("a.proto", "a", vec![message("A", vec![])])] };
    let _ = analyzer.analyze(&first);
    let second = FileDescriptorSet {
        file: vec![file("b.proto", "b", vec![message("B", vec![field("a", 1, None, Some(".a.A"))])])],
    };
    let graph = analyzer.analyze(&second);
    assert_eq!(graph.nodes.len(), 1);
    assert_eq!(graph.edges.len(), 1);
    assert_eq!(graph.edges[0].source, "b.B");
    assert_eq!(graph.edges[0].target, "a.A");
}

#[test]
fn packages_group_nodes_in_order() {
    let fds = FileDescriptorSet {
        file: vec![
            file("x.proto", "x", vec![message("A", vec![]), message("B", vec![])]),
            file("y.proto", "y", vec![message("C", vec![])]),
            file("z.proto", "", vec![message("D", vec![])]),
        ],
    };
    let graph = Analyzer::new().analyze(&fds);
    let groups: Vec<(&str, Vec<&str>)> = graph
        .packages
        .iter()
        .map(|p| (p.id.as_str(), p.node_ids.iter().map(|s| s.as_str()).collect()))
        .collect();
    assert_eq!(
        groups,
        vec![("x", vec!["x.A", "x.B"]), ("y", vec!["y.C"]), ("", vec!["D"])]
    );
}

#[test]
fn enum_values_and_unnamed_definitions() {
    let fds = FileDescriptorSet {
        file: vec![FileDescriptorProto {
            name: Some("e.proto".to_string()),
            package: None,
            message_type: vec![DescriptorProto::default()],
            enum_type: vec![EnumDescriptorProto {
                name: Some("Color".to_string()),
                value: vec![
                    EnumValueDescriptorProto { name: Some("RED".to_string()), number: Some(-1) },
                    EnumValueDescriptorProto { name: None, number: None },
                ],
            }],
            ..Default::default()
        }],
    };
    let graph = Analyzer::new().analyze(&fds);
    assert_eq!(graph.nodes.len(), 1);
    assert_eq!(graph.nodes[0].id, "Color");
    assert_eq!(
        graph.nodes[0].details,
        NodeDetails::Enum {
            values: vec![
                EnumValue { name: "RED".to_string(), number: -1 },
                EnumValue { name: String::new(), number: 0 },
            ]
        }
    );
}

fn msg_node(id: &str, fields: &[&str]) -> Node {
    Node::new(
        id.to_string(),
        NodeType::Message,
        "p".to_string(),
        id.rsplit('.').next().unwrap().to_string(),
        "p.proto".to_string(),
        NodeDetails::Message {
            fields: fields
                .iter()
                .enumerate()
                .map(|(i, n)| FieldInfo {
                    name: n.to_string(),
                    number: i as i32 + 1,
                    field_type: "string".to_string(),
                    label: "optional".to_string(),
                })
                .collect(),
        },
    )
}

fn model(nodes: Vec<Node>) -> GraphModel {
    GraphModel { nodes, edges: vec![], packages: vec![] }
}

#[test]
fn diff_lists_are_sorted_and_reversible() {
    let a = model(vec![msg_node("p.Z", &[]), msg_node("p.Keep", &["a"]), msg_node("p.B", &[])]);
    let b = model(vec![
        msg_node("p.Y", &[]),
        msg_node("p.Keep", &["a", "b"]),
        msg_node("p.A", &[]),
    ]);
    let forward = DiffReport::compute(&a, &b);
    let backward = DiffReport::compute(&b, &a);
    let ids = |v: &Vec<coral::diff::DiffNode>| v.iter().map(|n| n.id.clone()).collect::<Vec<_>>();
    assert_eq!(ids(&forward.added.messages), vec!["p.A", "p.Y"]);
    assert_eq!(ids(&forward.removed.messages), vec!["p.B", "p.Z"]);
    assert_eq!(ids(&backward.added.messages), ids(&forward.removed.messages));
    assert_eq!(ids(&backward.removed.messages), ids(&forward.added.messages));
    assert_eq!(forward.modified.len(), 1);
    assert!(matches!(&forward.modified[0].changes[..], [Change::FieldAdded { field }] if field.name == "b"));
    assert!(matches!(&backward.modified[0].changes[..], [Change::FieldRemoved { field }] if field.name == "b"));
    assert_eq!(forward.added.total_count(), 2);
}

#[test]
fn diff_with_itself_reports_nothing() {
    let a = model(vec![msg_node("p.A", &["x", "x"]), msg_node("p.A", &["y"])]);
    let diff = DiffReport::compute(&a, &a);
    assert!(!diff.has_changes());
    assert_eq!(diff.to_markdown(), "### No Changes Detected\n\n");
}

#[test]
fn diff_markdown_is_exact() {
    let base = model(vec![msg_node("p.Old", &[]), msg_node("p.M", &["a", "b"])]);
    let mut changed = msg_node("p.M", &["c"]);
    changed.label = "M|<x>".to_string();
    let head = model(vec![changed, msg_node("p.New", &[])]);
    let diff = DiffReport::compute(&base, &head);
    let expected = "### Changes from Base\n\n\
        #### ✅ Added (+1)\n\
        | Type | Name | Package |\n\
        |------|------|--------|\n\
        | Message | New | p |\n\
        \n\
        #### ⚠️ Modified (1)\n\
        | Type | Name | Changes |\n\
        |------|------|--------|\n\
        | Message | M\\|&lt;x&gt; | +1 field(s), -2 field(s) |\n\
        \n\
        #### ❌ Removed (-1)\n\
        | Type | Name | Package |\n\
        |------|------|--------|\n\
        | Message | Old | p |\n\
        \n";
    assert_eq!(diff.to_markdown(), expected);
}

#[test]
fn method_and_value_changes_are_summarized() {
    let svc = |methods: &[&str]| {
        Node::new(
            "p.S".to_string(),
            NodeType::Service,
            "p".to_string(),
            "S".to_string(),
            "p.proto".to_string(),
            NodeDetails::Service {
                methods: methods
                    .iter()
                    .map(|m| MethodSignature {
                        name: m.to_string(),
                        input_type: "I".to_string(),
                        output_type: "O".to_string(),
                    })
                    .collect(),
                messages: vec![],
            },
        )
    };
    let en = |values: &[&str]| {
        Node::new(
            "p.E".to_string(),
            NodeType::Enum,
            "p".to_string(),
            "E".to_string(),
            "p.proto".to_string(),
            NodeDetails::Enum {
                values: values
                    .iter()
                    .map(|v| EnumValue { name: v.to_string(), number: 0 })
                    .collect(),
            },
        )
    };
    let base = model(vec![svc(&["A", "B"]), en(&["X"])]);
    let head = model(vec![svc(&["C"]), en(&["X", "Y", "Z"])]);
    let md = DiffReport::compute(&base, &head).to_markdown();
    assert!(md.contains("| Enum | E | +2 value(s) |\n"));
    assert!(md.contains("| Service | S | +1 method(s), -2 method(s) |\n"));
    // Sorted by id: p.E before p.S.
    assert!(md.find("| Enum | E").unwrap() < md.find("| Service | S").unwrap());
}

#[test]
fn report_is_exact_for_a_small_graph() {
    let mut m = msg_node("p.M", &["a"]);
    if let NodeDetails::Message { fields } = &mut m.details {
        fields[0].number = -7;
    }
    let mut other = msg_node("p.N", &[]);
    other.file = "q.proto".to_string();
    let graph = model(vec![m, other]);
    let report = MarkdownReporter::generate(&graph);
    let expected = "## 🪸 Coral Proto Dependency Analysis\n\n\
        ### Overview\n\
        | Metric | Count |\n\
        |--------|-------|\n\
        | Files | 2 |\n\
        | Services | 0 |\n\
        | Messages | 2 |\n\
        | Enums | 0 |\n\
        | External | 0 |\n\
        | Dependencies | 0 |\n\n\
        <details>\n<summary>📦 Messages (2)</summary>\n\n\
        #### M\n**Package**: `p` | **File**: `p.proto`\n\n\
        | # | Field | Type | Label |\n\
        |---|-------|------|-------|\n\
        | -7 | a | string | optional |\n\
        \n\
        #### N\n**Package**: `p` | **File**: `q.proto`\n\n\
        </details>\n\n\
        ---\n*Generated by [Coral](https://github.com/daisuke8000/coral)*\n";
    assert_eq!(report, expected);
}

#[test]
fn reversed_diff_swaps_added_and_removed_entries() {
    let a = model(vec![msg_node("p.Keep", &["a", "c"])]);
    let b = model(vec![msg_node("p.Keep", &["a", "b"])]);
    let forward = DiffReport::compute(&a, &b);
    let backward = DiffReport::compute(&b, &a);
    assert!(matches!(
        &forward.modified[0].changes[..],
        [Change::FieldAdded { field: x }, Change::FieldRemoved { field: y }] if x.name == "b" && y.name == "c"
    ));
    assert!(matches!(
        &backward.modified[0].changes[..],
        [Change::FieldAdded { field: x }, Change::FieldRemoved { field: y }] if x.name == "c" && y.name == "b"
    ));
}

#[test]
fn external_node_is_added_once() {
    let analyzer = Analyzer::new();
    let mut nodes: Vec<Node> = vec![];
    let id = "google.protobuf.Timestamp".to_string();
    let fq = ".google.protobuf.Timestamp".to_string();
    analyzer.ensure_external_node(&id, &fq, &mut nodes);
    analyzer.ensure_external_node(&id, &fq, &mut nodes);
    assert_eq!(nodes.len(), 1);
    assert_eq!(nodes[0].label, "Timestamp");
    assert_eq!(nodes[0].package, "google.protobuf");
    assert_eq!(nodes[0].file, "google/protobuf.proto");
}

#[test]
fn fully_qualified_type_is_the_node_id_behind_a_dot() {
    let package = "user.v1".to_string();
    let name = "User".to_string();
    assert_eq!(generate_fq_type(&package, &name), ".user.v1.User");
    assert_eq!(generate_fq_type(&package, &name), format!(".{}", generate_node_id(&package, &name)));
    assert_eq!(generate_fq_type(&String::new(), &name), ".User");
}
