//! The graph model: one node per service, message or enum definition (and per
//! referenced external type), edges for type references, and packages that
//! group the nodes.
use vstd::prelude::*;

use crate::text::copy_string;

verus! {

/// The kind of definition a node stands for.
#[derive(Clone, Copy, Debug, PartialEq, Eq, Structural)]
pub enum NodeType {
    Service,
    Message,
    Enum,
    External,
}

/// A field of a message.
#[derive(Clone, Debug, PartialEq, Eq)]
pub struct FieldInfo {
    pub name: String,
    pub number: i32,
    pub field_type: String,
    pub label: String,
}

pub struct FieldInfoView {
    pub name: Seq<char>,
    pub number: i32,
    pub field_type: Seq<char>,
    pub label: Seq<char>,
}

impl View for FieldInfo {
    type V = FieldInfoView;

    open spec fn view(&self) -> FieldInfoView {
        FieldInfoView {
            name: self.name@,
            number: self.number,
            field_type: self.field_type@,
            label: self.label@,
        }
    }
}

impl DeepView for FieldInfo {
    type V = FieldInfoView;

    open spec fn deep_view(&self) -> FieldInfoView {
        self@
    }
}

impl FieldInfo {
    pub fn duplicate(&self) -> (r: Self)
        ensures
            r@ == self@,
    {
        FieldInfo {
            name: copy_string(&self.name),
            number: self.number,
            field_type: copy_string(&self.field_type),
            label: copy_string(&self.label),
        }
    }
}

/// An RPC method: its name and the short names of its request and response types.
#[derive(Clone, Debug, PartialEq, Eq)]
pub struct MethodSignature {
    pub name: String,
    pub input_type: String,
    pub output_type: String,
}

pub struct MethodSignatureView {
    pub name: Seq<char>,
    pub input_type: Seq<char>,
    pub output_type: Seq<char>,
}

impl View for MethodSignature {
    type V = MethodSignatureView;

    open spec fn view(&self) -> MethodSignatureView {
        MethodSignatureView {
            name: self.name@,
            input_type: self.input_type@,
            output_type: self.output_type@,
        }
    }
}

impl DeepView for MethodSignature {
    type V = MethodSignatureView;

    open spec fn deep_view(&self) -> MethodSignatureView {
        self@
    }
}

impl MethodSignature {
    pub fn duplicate(&self) -> (r: Self)
        ensures
            r@ == self@,
    {
        MethodSignature {
            name: copy_string(&self.name),
            input_type: copy_string(&self.input_type),
            output_type: copy_string(&self.output_type),
        }
    }
}

/// A value of an enum.
#[derive(Clone, Debug, PartialEq, Eq)]
pub struct EnumValue {
    pub name: String,
    pub number: i32,
}

pub struct EnumValueView {
    pub name: Seq<char>,
    pub number: i32,
}

impl View for EnumValue {
    type V = EnumValueView;

    open spec fn view(&self) -> EnumValueView {
        EnumValueView { name: self.name@, number: self.number }
    }
}

impl DeepView for EnumValue {
    type V = EnumValueView;

    open spec fn deep_view(&self) -> EnumValueView {
        self@
    }
}

impl EnumValue {
    pub fn duplicate(&self) -> (r: Self)
        ensures
            r@ == self@,
    {
        EnumValue { name: copy_string(&self.name), number: self.number }
    }
}

/// A message definition, as shown beside the methods that take or return it.
#[derive(Clone, Debug, PartialEq, Eq)]
pub struct MessageDef {
    pub name: String,
    pub fields: Vec<FieldInfo>,
}

pub struct MessageDefView {
    pub name: Seq<char>,
    pub fields: Seq<FieldInfoView>,
}

impl View for MessageDef {
    type V = MessageDefView;

    open spec fn view(&self) -> MessageDefView {
        MessageDefView { name: self.name@, fields: self.fields.deep_view() }
    }
}

impl DeepView for MessageDef {
    type V = MessageDefView;

    open spec fn deep_view(&self) -> MessageDefView {
        self@
    }
}

/// A copy of a list of fields.
pub fn duplicate_fields(v: &Vec<FieldInfo>) -> (r: Vec<FieldInfo>)
    ensures
        r.deep_view() == v.deep_view(),
{
    let mut r: Vec<FieldInfo> = Vec::new();
    for i in 0..v.len()
        invariant
            r@.len() == i,
            forall|j: int| 0 <= j < i ==> r@[j]@ == v@[j]@,
    {
        r.push(v[i].duplicate());
    }
    assert(r.deep_view() =~= v.deep_view());
    r
}

impl MessageDef {
    pub fn duplicate(&self) -> (r: Self)
        ensures
            r@ == self@,
    {
        MessageDef { name: copy_string(&self.name), fields: duplicate_fields(&self.fields) }
    }
}

/// What a node shows besides its name, by kind.
#[derive(Clone, Debug, PartialEq, Eq)]
pub enum NodeDetails {
    Service { methods: Vec<MethodSignature>, messages: Vec<MessageDef> },
    Message { fields: Vec<FieldInfo> },
    Enum { values: Vec<EnumValue> },
    External,
}

pub enum NodeDetailsView {
    Service { methods: Seq<MethodSignatureView>, messages: Seq<MessageDefView> },
    Message { fields: Seq<FieldInfoView> },
    Enum { values: Seq<EnumValueView> },
    External,
}

impl View for NodeDetails {
    type V = NodeDetailsView;

    open spec fn view(&self) -> NodeDetailsView {
        match self {
            NodeDetails::Service { methods, messages } => NodeDetailsView::Service {
                methods: methods.deep_view(),
                messages: messages.deep_view(),
            },
            NodeDetails::Message { fields } => NodeDetailsView::Message {
                fields: fields.deep_view(),
            },
            NodeDetails::Enum { values } => NodeDetailsView::Enum { values: values.deep_view() },
            NodeDetails::External => NodeDetailsView::External,
        }
    }
}

/// A node of the graph: one definition.
#[derive(Clone, Debug, PartialEq, Eq)]
pub struct Node {
    pub id: String,
    pub node_type: NodeType,
    pub package: String,
    pub label: String,
    pub file: String,
    pub details: NodeDetails,
}

pub struct NodeView {
    pub id: Seq<char>,
    pub node_type: NodeType,
    pub package: Seq<char>,
    pub label: Seq<char>,
    pub file: Seq<char>,
    pub details: NodeDetailsView,
}

impl View for Node {
    type V = NodeView;

    open spec fn view(&self) -> NodeView {
        NodeView {
            id: self.id@,
            node_type: self.node_type,
            package: self.package@,
            label: self.label@,
            file: self.file@,
            details: self.details@,
        }
    }
}

impl DeepView for Node {
    type V = NodeView;

    open spec fn deep_view(&self) -> NodeView {
        self@
    }
}

impl Node {
    pub fn new(
        id: String,
        node_type: NodeType,
        package: String,
        label: String,
        file: String,
        details: NodeDetails,
    ) -> (r: Self)
        ensures
            r@ == (NodeView {
                id: id@,
                node_type,
                package: package@,
                label: label@,
                file: file@,
                details: details@,
            }),
    {
        Node { id, node_type, package, label, file, details }
    }
}

/// A reference from the definition `source` to the definition `target`, by node id.
#[derive(Clone, Debug, PartialEq, Eq)]
pub struct Edge {
    pub source: String,
    pub target: String,
}

pub struct EdgeView {
    pub source: Seq<char>,
    pub target: Seq<char>,
}

impl View for Edge {
    type V = EdgeView;

    open spec fn view(&self) -> EdgeView {
        EdgeView { source: self.source@, target: self.target@ }
    }
}

impl DeepView for Edge {
    type V = EdgeView;

    open spec fn deep_view(&self) -> EdgeView {
        self@
    }
}

impl Edge {
    pub fn new(source: String, target: String) -> (r: Self)
        ensures
            r@ == (EdgeView { source: source@, target: target@ }),
    {
        Edge { source, target }
    }
}

/// A package and the ids of the nodes that belong to it.
#[derive(Clone, Debug, PartialEq, Eq)]
pub struct Package {
    pub id: String,
    pub node_ids: Vec<String>,
}

pub struct PackageView {
    pub id: Seq<char>,
    pub node_ids: Seq<Seq<char>>,
}

impl View for Package {
    type V = PackageView;

    open spec fn view(&self) -> PackageView {
        PackageView { id: self.id@, node_ids: self.node_ids.deep_view() }
    }
}

impl DeepView for Package {
    type V = PackageView;

    open spec fn deep_view(&self) -> PackageView {
        self@
    }
}

impl Package {
    pub fn new(id: String, node_ids: Vec<String>) -> (r: Self)
        ensures
            r@ == (PackageView { id: id@, node_ids: node_ids.deep_view() }),
    {
        Package { id, node_ids }
    }
}

/// The whole dependency graph.
#[derive(Clone, Debug, PartialEq, Eq)]
pub struct GraphModel {
    pub nodes: Vec<Node>,
    pub edges: Vec<Edge>,
    pub packages: Vec<Package>,
}

pub struct GraphModelView {
    pub nodes: Seq<NodeView>,
    pub edges: Seq<EdgeView>,
    pub packages: Seq<PackageView>,
}

impl View for GraphModel {
    type V = GraphModelView;

    open spec fn view(&self) -> GraphModelView {
        GraphModelView {
            nodes: self.nodes.deep_view(),
            edges: self.edges.deep_view(),
            packages: self.packages.deep_view(),
        }
    }
}

impl Default for GraphModel {
    fn default() -> (r: Self)
        ensures
            r@.nodes.len() == 0,
            r@.edges.len() == 0,
            r@.packages.len() == 0,
    {
        GraphModel { nodes: Vec::new(), edges: Vec::new(), packages: Vec::new() }
    }
}

} // verus!
