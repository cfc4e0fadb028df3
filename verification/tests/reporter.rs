use coral::domain::{
    Edge, EnumValue, FieldInfo, GraphModel, MethodSignature, Node, NodeDetails, NodeType,
};
use coral::MarkdownReporter;

fn create_test_model() -> GraphModel {
    GraphModel {
        nodes: vec![
            Node::new(
                "user.v1.UserService".to_string(),
                NodeType::Service,
                "user.v1".to_string(),
                "UserService".to_string(),
                "user/v1/user.proto".to_string(),
                NodeDetails::Service {
                    methods: vec![
                        MethodSignature {
                            name: "GetUser".to_string(),
                            input_type: "GetUserRequest".to_string(),
                            output_type: "User".to_string(),
                        },
                        MethodSignature {
                            name: "CreateUser".to_string(),
                            input_type: "CreateUserRequest".to_string(),
                            output_type: "User".to_string(),
                        },
                    ],
                    messages: vec![],
                },
            ),
            Node::new(
                "user.v1.User".to_string(),
                NodeType::Message,
                "user.v1".to_string(),
                "User".to_string(),
                "user/v1/user.proto".to_string(),
                NodeDetails::Message {
                    fields: vec![
                        FieldInfo {
                            name: "id".to_string(),
                            number: 1,
                            field_type: "string".to_string(),
                            label: "optional".to_string(),
                        },
                        FieldInfo {
                            name: "name".to_string(),
                            number: 2,
                            field_type: "string".to_string(),
                            label: "optional".to_string(),
                        },
                    ],
                },
            ),
            Node::new(
                "user.v1.Status".to_string(),
                NodeType::Enum,
                "user.v1".to_string(),
                "Status".to_string(),
                "user/v1/user.proto".to_string(),
                NodeDetails::Enum {
                    values: vec![
                        EnumValue {
                            name: "UNKNOWN".to_string(),
                            number: 0,
                        },
                        EnumValue {
                            name: "ACTIVE".to_string(),
                            number: 1,
                        },
                    ],
                },
            ),
        ],
        edges: vec![Edge::new(
            "user.v1.UserService".to_string(),
            "user.v1.User".to_string(),
        )],
        packages: vec![],
    }
}

#[test]
fn test_generate_contains_header() {
    let model = create_test_model();
    let report = MarkdownReporter::generate(&model);
    assert!(report.contains("## 🪸 Coral Proto Dependency Analysis"));
}

#[test]
fn test_generate_contains_overview() {
    let model = create_test_model();
    let report = MarkdownReporter::generate(&model);
    assert!(report.contains("### Overview"));
    assert!(report.contains("| Services | 1 |"));
    assert!(report.contains("| Messages | 1 |"));
    assert!(report.contains("| Enums | 1 |"));
}

#[test]
fn test_generate_contains_services() {
    let model = create_test_model();
    let report = MarkdownReporter::generate(&model);
    assert!(report.contains("📡 Services (1)"));
    assert!(report.contains("#### UserService"));
    assert!(report.contains("| GetUser | GetUserRequest | User |"));
}

#[test]
fn test_generate_contains_messages() {
    let model = create_test_model();
    let report = MarkdownReporter::generate(&model);
    assert!(report.contains("📦 Messages (1)"));
    assert!(report.contains("#### User"));
    assert!(report.contains("| 1 | id | string | optional |"));
}

#[test]
fn test_generate_contains_enums() {
    let model = create_test_model();
    let report = MarkdownReporter::generate(&model);
    assert!(report.contains("🏷️ Enums (1)"));
    assert!(report.contains("#### Status"));
    assert!(report.contains("| UNKNOWN | 0 |"));
}

#[test]
fn test_generate_contains_footer() {
    let model = create_test_model();
    let report = MarkdownReporter::generate(&model);
    assert!(report.contains("*Generated by [Coral]"));
}

#[test]
fn test_empty_model() {
    let model = GraphModel::default();
    let report = MarkdownReporter::generate(&model);
    assert!(report.contains("## 🪸 Coral"));
    assert!(report.contains("| Services | 0 |"));
    // No service/message/enum sections for empty model
    assert!(!report.contains("📡 Services"));
    assert!(!report.contains("📦 Messages"));
    assert!(!report.contains("🏷️ Enums"));
}
