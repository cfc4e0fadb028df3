//! Edges for the type references between definitions, and the nodes of the
//! external types they reach.
use vstd::prelude::*;
use vstd::string::*;

use crate::descriptor::{
    DescriptorProto, FieldDescriptorProto, MethodDescriptorProto, ServiceDescriptorProto,
};
use crate::domain::{Edge, EdgeView, Node, NodeDetails, NodeDetailsView, NodeType, NodeView};
use crate::text::{
    after_last_dot, before_last_dot, copy_string, dots_to_slashes, has_prefix, replace_dots,
    split_last_dot, starts_with, trim_dots, trim_leading_dots,
};

use super::engine::Analyzer;
use super::node_builder::MAX_NESTING_DEPTH;
use super::util::{fq_type_of, generate_fq_type, generate_node_id, node_id_of};

verus! {

/// The edge from `source` to the node of the type `t` refers to, when `t`
/// is there and its node id is known.
pub open spec fn ref_edge(ids: Map<Seq<char>, Seq<char>>, t: Option<String>, source: Seq<char>) -> Seq<EdgeView> {
    if t is Some && ids.dom().contains(t->0@) {
        seq![EdgeView { source, target: ids[t->0@] }]
    } else {
        Seq::empty()
    }
}

/// The edges from `source` to the request and response types of `methods`.
pub open spec fn method_edges(
    ids: Map<Seq<char>, Seq<char>>,
    methods: Seq<MethodDescriptorProto>,
    source: Seq<char>,
) -> Seq<EdgeView>
    decreases methods.len(),
{
    if methods.len() == 0 {
        Seq::empty()
    } else {
        method_edges(ids, methods.drop_last(), source) + ref_edge(
            ids,
            methods.last().input_type,
            source,
        ) + ref_edge(ids, methods.last().output_type, source)
    }
}

/// The edges of a service: none without a name.
pub open spec fn service_edges_of(
    ids: Map<Seq<char>, Seq<char>>,
    svc: ServiceDescriptorProto,
    package: Seq<char>,
) -> Seq<EdgeView> {
    match svc.name {
        Some(n) => method_edges(ids, svc.method@, node_id_of(package, n@)),
        None => Seq::empty(),
    }
}

/// A type name of an external package (`google.…`, `buf.…`, leading dots aside).
pub open spec fn is_external_fq_type(fq: Seq<char>) -> bool {
    let t = trim_leading_dots(fq);
    has_prefix(t, "google."@) || has_prefix(t, "buf."@)
}

/// The node of the external type `fq` with node id `id`: its label is the
/// last segment of the name, its package what precedes it, and its file the
/// package path with `.proto`.
pub open spec fn external_node_of(id: Seq<char>, fq: Seq<char>) -> NodeView {
    let t = trim_leading_dots(fq);
    let label = if t.contains('.') {
        after_last_dot(t)
    } else {
        t
    };
    let package = if t.contains('.') {
        before_last_dot(t)
    } else {
        Seq::empty()
    };
    NodeView {
        id,
        node_type: NodeType::External,
        package,
        label,
        file: dots_to_slashes(package) + ".proto"@,
        details: NodeDetailsView::External,
    }
}

/// The node of an external type `.{package}.{name}` is labelled `name`,
/// belongs to `package`, comes from the file of the package's path, and
/// keeps the given id.
pub proof fn lemma_external_node_names(id: Seq<char>, package: Seq<char>, name: Seq<char>)
    requires
        package.len() > 0,
        package[0] != '.',
        !name.contains('.'),
    ensures
        ({
            let n = external_node_of(id, "."@ + package + "."@ + name);
            &&& n.id == id
            &&& n.node_type == NodeType::External
            &&& n.label == name
            &&& n.package == package
            &&& n.file == dots_to_slashes(package) + ".proto"@
        }),
{
    reveal_strlit(".");
    let fq = "."@ + package + "."@ + name;
    crate::text::lemma_trim_skip(fq, 1);
    let t = package + "."@ + name;
    assert(fq.skip(1) =~= t);
    let k = package.len() as int;
    assert(t[k] == '.');
    assert forall|j: int| k < j < t.len() implies t[j] != '.' by {
        assert(t[j] == name[j - k - 1]);
    }
    crate::text::lemma_last_dot(t, k);
    assert(t.skip(k + 1) =~= name);
    assert(t.take(k) =~= package);
}

/// `nodes`, with the node of the external type `fq` added at the end unless
/// a node with id `id` is already there.
pub open spec fn with_external_node(nodes: Seq<NodeView>, id: Seq<char>, fq: Seq<char>) -> Seq<NodeView> {
    if exists|i: int| 0 <= i < nodes.len() && nodes[i].id == id {
        nodes
    } else {
        nodes.push(external_node_of(id, fq))
    }
}

/// Adding the node of an external type twice adds it once: the second time
/// a node with its id is already there.
pub proof fn lemma_with_external_node_idempotent(nodes: Seq<NodeView>, id: Seq<char>, fq: Seq<char>)
    ensures
        with_external_node(with_external_node(nodes, id, fq), id, fq) == with_external_node(
            nodes,
            id,
            fq,
        ),
{
    let once = with_external_node(nodes, id, fq);
    if !(exists|i: int| 0 <= i < nodes.len() && nodes[i].id == id) {
        assert(once[nodes.len() as int].id == id);
    }
}

/// The edges from `source` to the types its fields refer to, and the nodes
/// after adding those of the external types among them.
pub open spec fn field_edges_step(
    ids: Map<Seq<char>, Seq<char>>,
    fields: Seq<FieldDescriptorProto>,
    source: Seq<char>,
    nodes: Seq<NodeView>,
) -> (Seq<NodeView>, Seq<EdgeView>)
    decreases fields.len(),
{
    if fields.len() == 0 {
        (nodes, Seq::empty())
    } else {
        let (n1, e1) = field_edges_step(ids, fields.drop_last(), source, nodes);
        let t = fields.last().type_ref;
        if t is Some && ids.dom().contains(t->0@) {
            let target = ids[t->0@];
            let n2 = if is_external_fq_type(t->0@) {
                with_external_node(n1, target, t->0@)
            } else {
                n1
            };
            (n2, e1.push(EdgeView { source, target }))
        } else {
            (n1, e1)
        }
    }
}

/// The edges of the messages `msgs` nested at `depth` under the type name
/// `parent`, down to `MAX_NESTING_DEPTH`, and the nodes after them.
pub open spec fn nested_messages_edges(
    ids: Map<Seq<char>, Seq<char>>,
    msgs: Seq<DescriptorProto>,
    parent: Seq<char>,
    nodes: Seq<NodeView>,
    depth: int,
) -> (Seq<NodeView>, Seq<EdgeView>)
    decreases MAX_NESTING_DEPTH - depth, msgs.len(),
{
    if depth >= MAX_NESTING_DEPTH || msgs.len() == 0 {
        (nodes, Seq::empty())
    } else {
        let (n1, e1) = nested_messages_edges(ids, msgs.drop_last(), parent, nodes, depth);
        let (n2, e2) = nested_message_edges(ids, msgs.last(), parent, n1, depth);
        (n2, e1 + e2)
    }
}

/// One nested message: the edges of its fields (from its node id, its type
/// name without leading dots), then those of the messages nested in it.
pub open spec fn nested_message_edges(
    ids: Map<Seq<char>, Seq<char>>,
    msg: DescriptorProto,
    parent: Seq<char>,
    nodes: Seq<NodeView>,
    depth: int,
) -> (Seq<NodeView>, Seq<EdgeView>)
    decreases MAX_NESTING_DEPTH - depth, 0nat,
{
    if depth >= MAX_NESTING_DEPTH {
        (nodes, Seq::empty())
    } else {
        match msg.name {
            None => (nodes, Seq::empty()),
            Some(n) => {
                let fq = parent + "."@ + n@;
                let (n1, e1) = field_edges_step(ids, msg.field@, trim_leading_dots(fq), nodes);
                let (n2, e2) = nested_messages_edges(ids, msg.nested_type@, fq, n1, depth + 1);
                (n2, e1 + e2)
            },
        }
    }
}

/// The edges of a message of an analyzed file, those of the messages nested
/// in it after its own, and the nodes after them: no change without a name.
pub open spec fn message_edges_step(
    ids: Map<Seq<char>, Seq<char>>,
    msg: DescriptorProto,
    package: Seq<char>,
    nodes: Seq<NodeView>,
) -> (Seq<NodeView>, Seq<EdgeView>) {
    match msg.name {
        Some(n) => {
            let (n1, e1) = field_edges_step(ids, msg.field@, node_id_of(package, n@), nodes);
            let (n2, e2) = nested_messages_edges(ids, msg.nested_type@, fq_type_of(package, n@), n1, 0);
            (n2, e1 + e2)
        },
        None => (nodes, Seq::empty()),
    }
}

/// The edges without repeats: each (source, target) pair at its first occurrence.
pub open spec fn dedup_edges(edges: Seq<EdgeView>) -> Seq<EdgeView>
    decreases edges.len(),
{
    if edges.len() == 0 {
        Seq::empty()
    } else {
        let prev = dedup_edges(edges.drop_last());
        if edges.drop_last().contains(edges.last()) {
            prev
        } else {
            prev.push(edges.last())
        }
    }
}

/// Deduplication keeps exactly the edges it was given, each once.
pub proof fn lemma_dedup_edges(edges: Seq<EdgeView>)
    ensures
        forall|i: int, j: int|
            0 <= i < j < dedup_edges(edges).len() ==> dedup_edges(edges)[i] != dedup_edges(edges)[j],
        forall|e: EdgeView| dedup_edges(edges).contains(e) <==> edges.contains(e),
    decreases edges.len(),
{
    if edges.len() > 0 {
        let prev = edges.drop_last();
        lemma_dedup_edges(prev);
        let dp = dedup_edges(prev);
        let d = dedup_edges(edges);
        assert forall|e: EdgeView| d.contains(e) <==> edges.contains(e) by {
            if edges.contains(e) {
                let k = choose|k: int| 0 <= k < edges.len() && edges[k] == e;
                if k < edges.len() - 1 {
                    assert(prev[k] == e);
                    assert(prev.contains(e));
                    assert(dp.contains(e));
                    let k2 = choose|k2: int| 0 <= k2 < dp.len() && dp[k2] == e;
                    assert(d[k2] == e);
                } else if prev.contains(e) {
                    assert(dp.contains(e));
                    let k2 = choose|k2: int| 0 <= k2 < dp.len() && dp[k2] == e;
                    assert(d[k2] == e);
                } else {
                    assert(d[d.len() - 1] == e);
                }
            }
            if d.contains(e) {
                let k = choose|k: int| 0 <= k < d.len() && d[k] == e;
                if k < dp.len() {
                    assert(dp[k] == e);
                    assert(dp.contains(e));
                    assert(prev.contains(e));
                    let m = choose|m: int| 0 <= m < prev.len() && prev[m] == e;
                    assert(edges[m] == e);
                } else {
                    assert(edges[edges.len() - 1] == e);
                }
            }
        }
        if !prev.contains(edges.last()) {
            assert(!dp.contains(edges.last()));
        }
    }
}

impl Analyzer {
    /// The type name, leading dots aside, starts with `google.` or `buf.`.
    fn is_external_type(&self, fq_type: &String) -> (r: bool)
        ensures
            r == is_external_fq_type(fq_type@),
    {
        let t = trim_dots(fq_type);
        starts_with(&t, "google.") || starts_with(&t, "buf.")
    }

    /// Adds the node of the external type `fq_type` unless a node `id` exists.
    pub fn ensure_external_node(&self, id: &String, fq_type: &String, nodes: &mut Vec<Node>)
        ensures
            final(nodes).deep_view() == with_external_node(old(nodes).deep_view(), id@, fq_type@),
    {
        let mut i: usize = 0;
        while i < nodes.len() && !(nodes[i].id == *id)
            invariant
                i <= nodes@.len(),
                forall|j: int| 0 <= j < i ==> nodes@[j]@.id != id@,
            decreases nodes@.len() - i,
        {
            i = i + 1;
        }
        if i < nodes.len() {
            assert(nodes.deep_view()[i as int].id == id@);
            return;
        }
        let ghost before = nodes.deep_view();
        let type_without_dot = trim_dots(fq_type);
        let (label, package) = match split_last_dot(&type_without_dot) {
            Some((before_dot, after_dot)) => (after_dot, before_dot),
            None => (copy_string(&type_without_dot), String::new()),
        };
        let mut file = replace_dots(&package);
        file.append(".proto");
        nodes.push(Node::new(copy_string(id), NodeType::External, package, label, file, NodeDetails::External));
        assert(nodes.deep_view() =~= before.push(external_node_of(id@, fq_type@)));
    }

    /// Appends to `edges` the edge from `source` to the type `t` refers to.
    fn push_ref_edge(&self, t: &Option<String>, source: &String, edges: &mut Vec<Edge>)
        ensures
            final(edges).deep_view() == old(edges).deep_view() + ref_edge(self.state().node_ids, *t, source@),
    {
        let ghost before = edges.deep_view();
        if let Some(type_ref) = t {
            if let Some(target_id) = self.type_to_node_id.get(type_ref) {
                edges.push(Edge::new(copy_string(source), copy_string(target_id)));
                assert(edges.deep_view() =~= before + ref_edge(self.state().node_ids, *t, source@));
                return;
            }
        }
        assert(edges.deep_view() =~= before + ref_edge(self.state().node_ids, *t, source@));
    }

    pub(crate) fn create_service_edges(&self, service: &ServiceDescriptorProto, package: &String) -> (r: Vec<Edge>)
        ensures
            r.deep_view() == service_edges_of(self.state().node_ids, *service, package@),
    {
        let service_name = match &service.name {
            Some(n) => n,
            None => return Vec::new(),
        };
        let source_id = generate_node_id(package, service_name);
        let mut edges: Vec<Edge> = Vec::new();
        let ghost ids = self.state().node_ids;
        for i in 0..service.method.len()
            invariant
                ids == self.state().node_ids,
                edges.deep_view() == method_edges(ids, service.method@.take(i as int), source_id@),
        {
            let method = &service.method[i];
            self.push_ref_edge(&method.input_type, &source_id, &mut edges);
            self.push_ref_edge(&method.output_type, &source_id, &mut edges);
            assert(service.method@.take(i + 1).drop_last() =~= service.method@.take(i as int));
        }
        assert(service.method@.take(service.method@.len() as int) =~= service.method@);
        edges
    }

    /// Appends the edges of `fields` from `source_id`, adding the nodes of
    /// the external types they reach.
    fn push_field_edges(
        &self,
        fields: &Vec<FieldDescriptorProto>,
        source_id: &String,
        nodes: &mut Vec<Node>,
        edges: &mut Vec<Edge>,
    )
        ensures
            final(nodes).deep_view() == field_edges_step(
                self.state().node_ids,
                fields@,
                source_id@,
                old(nodes).deep_view(),
            ).0,
            final(edges).deep_view() == old(edges).deep_view() + field_edges_step(
                self.state().node_ids,
                fields@,
                source_id@,
                old(nodes).deep_view(),
            ).1,
    {
        let ghost ids = self.state().node_ids;
        let ghost nodes0 = nodes.deep_view();
        let ghost edges0 = edges.deep_view();
        for i in 0..fields.len()
            invariant
                ids == self.state().node_ids,
                nodes.deep_view() == field_edges_step(ids, fields@.take(i as int), source_id@, nodes0).0,
                edges.deep_view() == edges0 + field_edges_step(
                    ids,
                    fields@.take(i as int),
                    source_id@,
                    nodes0,
                ).1,
        {
            let field = &fields[i];
            assert(fields@.take(i + 1).drop_last() =~= fields@.take(i as int));
            let ghost before = edges.deep_view();
            if let Some(type_ref) = &field.type_ref {
                if let Some(target_id) = self.type_to_node_id.get(type_ref) {
                    if self.is_external_type(type_ref) {
                        self.ensure_external_node(target_id, type_ref, nodes);
                    }
                    let e = Edge::new(copy_string(source_id), copy_string(target_id));
                    let ghost ev = e@;
                    edges.push(e);
                    assert(edges.deep_view() =~= before.push(ev));
                }
            }
            assert(edges.deep_view() =~= edges0 + field_edges_step(
                ids,
                fields@.take(i + 1),
                source_id@,
                nodes0,
            ).1);
        }
        assert(fields@.take(fields@.len() as int) =~= fields@);
    }

    /// Appends the edges of a message nested at `depth` under `parent_fq`,
    /// then those of the messages nested in it, down to `MAX_NESTING_DEPTH`.
    fn push_nested_message_edges(
        &self,
        message: &DescriptorProto,
        parent_fq: &String,
        depth: usize,
        nodes: &mut Vec<Node>,
        edges: &mut Vec<Edge>,
    )
        ensures
            final(nodes).deep_view() == nested_message_edges(
                self.state().node_ids,
                *message,
                parent_fq@,
                old(nodes).deep_view(),
                depth as int,
            ).0,
            final(edges).deep_view() == old(edges).deep_view() + nested_message_edges(
                self.state().node_ids,
                *message,
                parent_fq@,
                old(nodes).deep_view(),
                depth as int,
            ).1,
        decreases MAX_NESTING_DEPTH - depth,
    {
        let ghost ids = self.state().node_ids;
        let ghost edges0 = edges.deep_view();
        if depth >= MAX_NESTING_DEPTH {
            assert(edges.deep_view() =~= edges0 + Seq::<EdgeView>::empty());
            return;
        }
        match &message.name {
            None => {
                assert(edges.deep_view() =~= edges0 + Seq::<EdgeView>::empty());
            },
            Some(name) => {
                let mut fq = copy_string(parent_fq);
                fq.append(".");
                fq.append(name.as_str());
                let source_id = trim_dots(&fq);
                self.push_field_edges(&message.field, &source_id, nodes, edges);
                let ghost nodes1 = nodes.deep_view();
                let ghost edges1 = edges.deep_view();
                let nested = &message.nested_type;
                for i in 0..nested.len()
                    invariant
                        depth < MAX_NESTING_DEPTH,
                        ids == self.state().node_ids,
                        nodes.deep_view() == nested_messages_edges(
                            ids,
                            nested@.take(i as int),
                            fq@,
                            nodes1,
                            depth + 1,
                        ).0,
                        edges.deep_view() == edges1 + nested_messages_edges(
                            ids,
                            nested@.take(i as int),
                            fq@,
                            nodes1,
                            depth + 1,
                        ).1,
                {
                    assert(nested@.take(i + 1).drop_last() =~= nested@.take(i as int));
                    self.push_nested_message_edges(&nested[i], &fq, depth + 1, nodes, edges);
                    assert(edges.deep_view() =~= edges1 + nested_messages_edges(
                        ids,
                        nested@.take(i + 1),
                        fq@,
                        nodes1,
                        depth + 1,
                    ).1);
                }
                assert(nested@.take(nested@.len() as int) =~= nested@);
                assert(edges.deep_view() =~= edges0 + nested_message_edges(
                    ids,
                    *message,
                    parent_fq@,
                    old(nodes).deep_view(),
                    depth as int,
                ).1);
            },
        }
    }

    pub(crate) fn create_message_edges(
        &self,
        message: &DescriptorProto,
        package: &String,
        nodes: &mut Vec<Node>,
    ) -> (r: Vec<Edge>)
        ensures
            (final(nodes).deep_view(), r.deep_view()) == message_edges_step(
                self.state().node_ids,
                *message,
                package@,
                old(nodes).deep_view(),
            ),
    {
        let message_name = match &message.name {
            Some(n) => n,
            None => return Vec::new(),
        };
        let source_id = generate_node_id(package, message_name);
        let fq = generate_fq_type(package, message_name);
        let mut edges: Vec<Edge> = Vec::new();
        let ghost ids = self.state().node_ids;
        self.push_field_edges(&message.field, &source_id, nodes, &mut edges);
        assert(edges.deep_view() =~= field_edges_step(
            ids,
            message.field@,
            source_id@,
            old(nodes).deep_view(),
        ).1);
        let ghost nodes1 = nodes.deep_view();
        let ghost edges1 = edges.deep_view();
        let nested = &message.nested_type;
        for i in 0..nested.len()
            invariant
                ids == self.state().node_ids,
                nodes.deep_view() == nested_messages_edges(ids, nested@.take(i as int), fq@, nodes1, 0).0,
                edges.deep_view() == edges1 + nested_messages_edges(
                    ids,
                    nested@.take(i as int),
                    fq@,
                    nodes1,
                    0,
                ).1,
        {
            assert(nested@.take(i + 1).drop_last() =~= nested@.take(i as int));
            self.push_nested_message_edges(&nested[i], &fq, 0, nodes, &mut edges);
            assert(edges.deep_view() =~= edges1 + nested_messages_edges(
                ids,
                nested@.take(i + 1),
                fq@,
                nodes1,
                0,
            ).1);
        }
        assert(nested@.take(nested@.len() as int) =~= nested@);
        edges
    }

    pub(crate) fn deduplicate_edges(edges: Vec<Edge>) -> (r: Vec<Edge>)
        ensures
            r.deep_view() == dedup_edges(edges.deep_view()),
    {
        let mut out: Vec<Edge> = Vec::new();
        for i in 0..edges.len()
            invariant
                out.deep_view() == dedup_edges(edges.deep_view().take(i as int)),
        {
            let e = &edges[i];
            let ghost prefix = edges.deep_view().take(i as int);
            let mut j: usize = 0;
            while j < i && !(edges[j].source == e.source && edges[j].target == e.target)
                invariant
                    j <= i,
                    i < edges@.len(),
                    prefix == edges.deep_view().take(i as int),
                    forall|k: int| 0 <= k < j ==> prefix[k] != e@,
                decreases i - j,
            {
                j = j + 1;
            }
            assert(edges.deep_view().take(i + 1).drop_last() =~= prefix);
            assert(edges.deep_view().take(i + 1).last() == e@);
            if j == i {
                assert(!prefix.contains(e@));
                let ghost before = out.deep_view();
                out.push(Edge::new(copy_string(&e.source), copy_string(&e.target)));
                assert(out.deep_view() =~= before.push(e@));
            } else {
                assert(prefix[j as int] == e@);
            }
        }
        assert(edges.deep_view().take(edges.len() as int) =~= edges.deep_view());
        out
    }
}

} // verus!
