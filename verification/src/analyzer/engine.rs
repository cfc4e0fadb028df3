//! The analyzer's state and the three passes that turn a descriptor set into
//! a graph.
use vstd::prelude::*;

use crate::descriptor::{
    or_empty, DescriptorProto, EnumDescriptorProto, FileDescriptorProto, FileDescriptorSet,
    ServiceDescriptorProto,
};
use crate::domain::{
    Edge, EdgeView, GraphModel, GraphModelView, MessageDef, MessageDefView, Node, NodeView,
};

use super::edge_builder::{dedup_edges, lemma_dedup_edges, message_edges_step, service_edges_of};
use super::node_builder::{
    enum_node_step, external_enum_registered, external_type_registered, message_node_step,
    opt_node_view, or_default, service_node_step,
};
use super::table::TypeTable;
use super::util::{
    group_packages, is_external_file, is_external_path, lemma_packages_partition, package_members,
    packages_of,
};

verus! {

/// Creates one node per service, message and enum definition (nested
/// messages and enums included), and edges for the type references between
/// definitions. What it learns of type names
/// stays from one `analyze` to the next.
pub struct Analyzer {
    /// Fully qualified type name (`.user.v1.User`) to node id (`user.v1.User`).
    pub(crate) type_to_node_id: TypeTable<String>,
    /// Fully qualified type name to the definition shown beside RPC methods.
    pub(crate) type_to_message_def: TypeTable<MessageDef>,
    /// Packages of the external files (`google/…`, `buf/…`) seen so far.
    pub(crate) external_packages: Vec<String>,
}

/// What an analyzer knows: the node id and the message definition of each
/// type name, and the external packages.
pub struct AnalyzerView {
    pub node_ids: Map<Seq<char>, Seq<char>>,
    pub message_defs: Map<Seq<char>, MessageDefView>,
    pub external_packages: Set<Seq<char>>,
}

impl View for Analyzer {
    type V = AnalyzerView;

    closed spec fn view(&self) -> AnalyzerView {
        self.state()
    }
}

impl Analyzer {
    /// The view, as the analyzer's own modules see it.
    pub(crate) open spec fn state(&self) -> AnalyzerView {
        AnalyzerView {
            node_ids: self.type_to_node_id@,
            message_defs: self.type_to_message_def@,
            external_packages: self.external_packages.deep_view().to_set(),
        }
    }
}

impl Analyzer {
    #[must_use]
    pub fn new() -> (a: Self)
        ensures
            a@.node_ids == Map::<Seq<char>, Seq<char>>::empty(),
            a@.message_defs == Map::<Seq<char>, MessageDefView>::empty(),
            a@.external_packages == Set::<Seq<char>>::empty(),
    {
        let a = Analyzer {
            type_to_node_id: TypeTable::new(),
            type_to_message_def: TypeTable::new(),
            external_packages: Vec::new(),
        };
        assert(a.external_packages.deep_view().to_set() =~= Set::<Seq<char>>::empty());
        a
    }
}

/// The node of an optional one, as a sequence of zero or one.
pub open spec fn opt_seq(o: Option<NodeView>) -> Seq<NodeView> {
    match o {
        Some(n) => seq![n],
        None => Seq::empty(),
    }
}

/// The messages of one file, in order: those of an external file are only
/// registered; the others become nodes.
pub open spec fn messages_step(
    st: AnalyzerView,
    msgs: Seq<DescriptorProto>,
    package: Seq<char>,
    file: Seq<char>,
    external: bool,
) -> (AnalyzerView, Seq<NodeView>)
    decreases msgs.len(),
{
    if msgs.len() == 0 {
        (st, Seq::empty())
    } else {
        let (s1, n1) = messages_step(st, msgs.drop_last(), package, file, external);
        if external {
            (external_type_registered(s1, msgs.last(), package), n1)
        } else {
            let (s2, n2) = message_node_step(s1, msgs.last(), package, file);
            (s2, n1 + n2)
        }
    }
}

/// The enums of one file, in order, as for the messages.
pub open spec fn enums_step(
    st: AnalyzerView,
    enums: Seq<EnumDescriptorProto>,
    package: Seq<char>,
    file: Seq<char>,
    external: bool,
) -> (AnalyzerView, Seq<NodeView>)
    decreases enums.len(),
{
    if enums.len() == 0 {
        (st, Seq::empty())
    } else {
        let (s1, n1) = enums_step(st, enums.drop_last(), package, file, external);
        if external {
            (external_enum_registered(s1, enums.last(), package), n1)
        } else {
            let (s2, o) = enum_node_step(s1, enums.last(), package, file);
            (s2, n1 + opt_seq(o))
        }
    }
}

/// The first pass on one file: its messages, then its enums.
pub open spec fn file_definitions_step(st: AnalyzerView, f: FileDescriptorProto) -> (AnalyzerView, Seq<NodeView>) {
    let file = or_empty(f.name);
    let package = or_empty(f.package);
    let external = is_external_path(file);
    let (s1, n1) = messages_step(st, f.message_type@, package, file, external);
    let (s2, n2) = enums_step(s1, f.enum_type@, package, file, external);
    (s2, n1 + n2)
}

/// The first pass: message and enum nodes of every file, in file order.
pub open spec fn definitions_pass(st: AnalyzerView, files: Seq<FileDescriptorProto>) -> (AnalyzerView, Seq<NodeView>)
    decreases files.len(),
{
    if files.len() == 0 {
        (st, Seq::empty())
    } else {
        let (s1, n1) = definitions_pass(st, files.drop_last());
        let (s2, n2) = file_definitions_step(s1, files.last());
        (s2, n1 + n2)
    }
}

/// The services of one file, in order.
pub open spec fn services_step(
    st: AnalyzerView,
    svcs: Seq<ServiceDescriptorProto>,
    package: Seq<char>,
    file: Seq<char>,
) -> (AnalyzerView, Seq<NodeView>)
    decreases svcs.len(),
{
    if svcs.len() == 0 {
        (st, Seq::empty())
    } else {
        let (s1, n1) = services_step(st, svcs.drop_last(), package, file);
        let (s2, o) = service_node_step(s1, svcs.last(), package, file);
        (s2, n1 + opt_seq(o))
    }
}

/// The second pass: service nodes of every file (external ones included),
/// once every message definition is known.
pub open spec fn services_pass(st: AnalyzerView, files: Seq<FileDescriptorProto>) -> (AnalyzerView, Seq<NodeView>)
    decreases files.len(),
{
    if files.len() == 0 {
        (st, Seq::empty())
    } else {
        let (s1, n1) = services_pass(st, files.drop_last());
        let f = files.last();
        let (s2, n2) = services_step(s1, f.service@, or_empty(f.package), or_empty(f.name));
        (s2, n1 + n2)
    }
}

/// The edges of the services of one file, in order.
pub open spec fn services_edges(
    ids: Map<Seq<char>, Seq<char>>,
    svcs: Seq<ServiceDescriptorProto>,
    package: Seq<char>,
) -> Seq<EdgeView>
    decreases svcs.len(),
{
    if svcs.len() == 0 {
        Seq::empty()
    } else {
        services_edges(ids, svcs.drop_last(), package) + service_edges_of(ids, svcs.last(), package)
    }
}

/// The edges of the messages of one file, in order, and the nodes after them.
pub open spec fn messages_edges(
    ids: Map<Seq<char>, Seq<char>>,
    msgs: Seq<DescriptorProto>,
    package: Seq<char>,
    nodes: Seq<NodeView>,
) -> (Seq<NodeView>, Seq<EdgeView>)
    decreases msgs.len(),
{
    if msgs.len() == 0 {
        (nodes, Seq::empty())
    } else {
        let (n1, e1) = messages_edges(ids, msgs.drop_last(), package, nodes);
        let (n2, e2) = message_edges_step(ids, msgs.last(), package, n1);
        (n2, e1 + e2)
    }
}

/// The third pass on one file: none for an external file; else the edges
/// of its services, then those of its messages.
pub open spec fn file_edges_step(
    ids: Map<Seq<char>, Seq<char>>,
    f: FileDescriptorProto,
    nodes: Seq<NodeView>,
) -> (Seq<NodeView>, Seq<EdgeView>) {
    if is_external_path(or_empty(f.name)) {
        (nodes, Seq::empty())
    } else {
        let package = or_empty(f.package);
        let e1 = services_edges(ids, f.service@, package);
        let (n2, e2) = messages_edges(ids, f.message_type@, package, nodes);
        (n2, e1 + e2)
    }
}

/// The third pass: edges of every file, in file order.
pub open spec fn edges_pass(
    ids: Map<Seq<char>, Seq<char>>,
    files: Seq<FileDescriptorProto>,
    nodes: Seq<NodeView>,
) -> (Seq<NodeView>, Seq<EdgeView>)
    decreases files.len(),
{
    if files.len() == 0 {
        (nodes, Seq::empty())
    } else {
        let (n1, e1) = edges_pass(ids, files.drop_last(), nodes);
        let (n2, e2) = file_edges_step(ids, files.last(), n1);
        (n2, e1 + e2)
    }
}

/// What `analyze` leaves in the analyzer, and the graph it returns: the
/// nodes of the first two passes (one per message and enum of the analyzed
/// files, nested ones included down to `MAX_NESTING_DEPTH`, then one per
/// service) and the external nodes of the third; the edges of the field and
/// method references, without repeats; the packages of the nodes.
pub open spec fn analysis_of(st: AnalyzerView, fds: FileDescriptorSet) -> (AnalyzerView, GraphModelView) {
    let (s1, n1) = definitions_pass(st, fds.file@);
    let (s2, n2) = services_pass(s1, fds.file@);
    let (n3, e) = edges_pass(s2.node_ids, fds.file@, n1 + n2);
    (s2, GraphModelView { nodes: n3, edges: dedup_edges(e), packages: packages_of(n3) })
}

/// Appends `more` to `items`.
fn push_all<T>(items: &mut Vec<T>, more: Vec<T>)
    ensures
        final(items)@ == old(items)@ + more@,
{
    let mut more = more;
    items.append(&mut more);
}

impl Analyzer {
    fn push_node(nodes: &mut Vec<Node>, o: Option<Node>)
        ensures
            final(nodes).deep_view() == old(nodes).deep_view() + opt_seq(opt_node_view(o)),
    {
        let ghost before = nodes.deep_view();
        if let Some(n) = o {
            nodes.push(n);
        }
        assert(nodes.deep_view() =~= before + opt_seq(opt_node_view(o)));
    }

    fn add_file_definitions(&mut self, file: &FileDescriptorProto, nodes: &mut Vec<Node>)
        ensures
            final(self).state() == file_definitions_step(old(self).state(), *file).0,
            final(nodes).deep_view() == old(nodes).deep_view() + file_definitions_step(
                old(self).state(),
                *file,
            ).1,
    {
        let file_name = or_default(&file.name);
        let package = or_default(&file.package);
        let is_external = is_external_file(&file_name);
        let ghost st0 = self.state();
        let ghost nodes0 = nodes.deep_view();
        for i in 0..file.message_type.len()
            invariant
                is_external == is_external_path(file_name@),
                file_name@ == or_empty(file.name),
                package@ == or_empty(file.package),
                self.state() == messages_step(
                    st0,
                    file.message_type@.take(i as int),
                    package@,
                    file_name@,
                    is_external,
                ).0,
                nodes.deep_view() == nodes0 + messages_step(
                    st0,
                    file.message_type@.take(i as int),
                    package@,
                    file_name@,
                    is_external,
                ).1,
        {
            let message = &file.message_type[i];
            assert(file.message_type@.take(i + 1).drop_last() =~= file.message_type@.take(i as int));
            if is_external {
                self.register_external_type(message, &package);
            } else {
                self.create_message_node(message, &package, &file_name, nodes);
            }
            assert(nodes.deep_view() =~= nodes0 + messages_step(
                st0,
                file.message_type@.take(i + 1),
                package@,
                file_name@,
                is_external,
            ).1);
        }
        assert(file.message_type@.take(file.message_type@.len() as int) =~= file.message_type@);
        let ghost st1 = self.state();
        let ghost nodes1 = nodes.deep_view();
        for i in 0..file.enum_type.len()
            invariant
                is_external == is_external_path(file_name@),
                file_name@ == or_empty(file.name),
                package@ == or_empty(file.package),
                self.state() == enums_step(
                    st1,
                    file.enum_type@.take(i as int),
                    package@,
                    file_name@,
                    is_external,
                ).0,
                nodes.deep_view() == nodes1 + enums_step(
                    st1,
                    file.enum_type@.take(i as int),
                    package@,
                    file_name@,
                    is_external,
                ).1,
        {
            let enum_type = &file.enum_type[i];
            assert(file.enum_type@.take(i + 1).drop_last() =~= file.enum_type@.take(i as int));
            if is_external {
                self.register_external_enum(enum_type, &package);
            } else {
                let o = self.create_enum_node(enum_type, &package, &file_name);
                Self::push_node(nodes, o);
            }
            assert(nodes.deep_view() =~= nodes1 + enums_step(
                st1,
                file.enum_type@.take(i + 1),
                package@,
                file_name@,
                is_external,
            ).1);
        }
        assert(file.enum_type@.take(file.enum_type@.len() as int) =~= file.enum_type@);
        assert(nodes.deep_view() =~= nodes0 + file_definitions_step(st0, *file).1);
    }

    fn add_file_services(&mut self, file: &FileDescriptorProto, nodes: &mut Vec<Node>)
        ensures
            final(self).state() == services_step(
                old(self).state(),
                file.service@,
                or_empty(file.package),
                or_empty(file.name),
            ).0,
            final(nodes).deep_view() == old(nodes).deep_view() + services_step(
                old(self).state(),
                file.service@,
                or_empty(file.package),
                or_empty(file.name),
            ).1,
    {
        let file_name = or_default(&file.name);
        let package = or_default(&file.package);
        let ghost st0 = self.state();
        let ghost nodes0 = nodes.deep_view();
        for i in 0..file.service.len()
            invariant
                file_name@ == or_empty(file.name),
                package@ == or_empty(file.package),
                self.state() == services_step(st0, file.service@.take(i as int), package@, file_name@).0,
                nodes.deep_view() == nodes0 + services_step(
                    st0,
                    file.service@.take(i as int),
                    package@,
                    file_name@,
                ).1,
        {
            assert(file.service@.take(i + 1).drop_last() =~= file.service@.take(i as int));
            let o = self.create_service_node(&file.service[i], &package, &file_name);
            Self::push_node(nodes, o);
            assert(nodes.deep_view() =~= nodes0 + services_step(
                st0,
                file.service@.take(i + 1),
                package@,
                file_name@,
            ).1);
        }
        assert(file.service@.take(file.service@.len() as int) =~= file.service@);
    }

    fn add_file_edges(&self, file: &FileDescriptorProto, nodes: &mut Vec<Node>, edges: &mut Vec<Edge>)
        ensures
            final(nodes).deep_view() == file_edges_step(
                self.state().node_ids,
                *file,
                old(nodes).deep_view(),
            ).0,
            final(edges).deep_view() == old(edges).deep_view() + file_edges_step(
                self.state().node_ids,
                *file,
                old(nodes).deep_view(),
            ).1,
    {
        let file_name = or_default(&file.name);
        if is_external_file(&file_name) {
            assert(edges.deep_view() =~= edges.deep_view() + Seq::<EdgeView>::empty());
            return;
        }
        let package = or_default(&file.package);
        let ghost ids = self.state().node_ids;
        let ghost edges0 = edges.deep_view();
        let ghost nodes0 = nodes.deep_view();
        for i in 0..file.service.len()
            invariant
                ids == self.state().node_ids,
                package@ == or_empty(file.package),
                nodes.deep_view() == nodes0,
                edges.deep_view() == edges0 + services_edges(ids, file.service@.take(i as int), package@),
        {
            assert(file.service@.take(i + 1).drop_last() =~= file.service@.take(i as int));
            let more = self.create_service_edges(&file.service[i], &package);
            let ghost before = edges.deep_view();
            push_all(edges, more);
            assert(edges.deep_view() =~= before + more.deep_view());
            assert(edges.deep_view() =~= edges0 + services_edges(ids, file.service@.take(i + 1), package@));
        }
        assert(file.service@.take(file.service@.len() as int) =~= file.service@);
        let ghost edges1 = edges.deep_view();
        for i in 0..file.message_type.len()
            invariant
                ids == self.state().node_ids,
                package@ == or_empty(file.package),
                nodes.deep_view() == messages_edges(ids, file.message_type@.take(i as int), package@, nodes0).0,
                edges.deep_view() == edges1 + messages_edges(
                    ids,
                    file.message_type@.take(i as int),
                    package@,
                    nodes0,
                ).1,
        {
            assert(file.message_type@.take(i + 1).drop_last() =~= file.message_type@.take(i as int));
            let more = self.create_message_edges(&file.message_type[i], &package, nodes);
            let ghost before = edges.deep_view();
            push_all(edges, more);
            assert(edges.deep_view() =~= before + more.deep_view());
            assert(edges.deep_view() =~= edges1 + messages_edges(
                ids,
                file.message_type@.take(i + 1),
                package@,
                nodes0,
            ).1);
        }
        assert(file.message_type@.take(file.message_type@.len() as int) =~= file.message_type@);
        assert(edges.deep_view() =~= edges0 + file_edges_step(ids, *file, nodes0).1);
    }

    /// Builds the graph of `fds`. Registrations of type names (and message
    /// definitions) are kept in the analyzer for later calls.
    #[must_use]
    pub fn analyze(&mut self, fds: &FileDescriptorSet) -> (model: GraphModel)
        ensures
            (final(self)@, model@) == analysis_of(old(self)@, *fds),
    {
        let files = &fds.file;
        let mut nodes: Vec<Node> = Vec::new();
        let ghost st0 = self.state();
        for i in 0..files.len()
            invariant
                self.state() == definitions_pass(st0, files@.take(i as int)).0,
                nodes.deep_view() == definitions_pass(st0, files@.take(i as int)).1,
        {
            assert(files@.take(i + 1).drop_last() =~= files@.take(i as int));
            self.add_file_definitions(&files[i], &mut nodes);
        }
        assert(files@.take(files@.len() as int) =~= files@);
        let ghost st1 = self.state();
        let ghost nodes1 = nodes.deep_view();
        for i in 0..files.len()
            invariant
                self.state() == services_pass(st1, files@.take(i as int)).0,
                nodes.deep_view() == nodes1 + services_pass(st1, files@.take(i as int)).1,
        {
            assert(files@.take(i + 1).drop_last() =~= files@.take(i as int));
            self.add_file_services(&files[i], &mut nodes);
            assert(nodes.deep_view() =~= nodes1 + services_pass(st1, files@.take(i + 1)).1);
        }
        let ghost nodes2 = nodes.deep_view();
        let ghost ids = self.state().node_ids;
        let mut edges: Vec<Edge> = Vec::new();
        for i in 0..files.len()
            invariant
                ids == self.state().node_ids,
                nodes.deep_view() == edges_pass(ids, files@.take(i as int), nodes2).0,
                edges.deep_view() == edges_pass(ids, files@.take(i as int), nodes2).1,
        {
            assert(files@.take(i + 1).drop_last() =~= files@.take(i as int));
            self.add_file_edges(&files[i], &mut nodes, &mut edges);
        }
        let edges = Self::deduplicate_edges(edges);
        let packages = group_packages(&nodes);
        GraphModel { nodes, edges, packages }
    }
}

impl Default for Analyzer {
    fn default() -> (a: Self)
        ensures
            a@.node_ids == Map::<Seq<char>, Seq<char>>::empty(),
            a@.message_defs == Map::<Seq<char>, MessageDefView>::empty(),
            a@.external_packages == Set::<Seq<char>>::empty(),
    {
        Self::new()
    }
}

/// The graph of an analysis lists each (source, target) edge once, and
/// exactly the references that its passes found.
pub proof fn lemma_analysis_edges_distinct(st: AnalyzerView, fds: FileDescriptorSet)
    ensures
        forall|i: int, j: int|
            0 <= i < j < analysis_of(st, fds).1.edges.len() ==> analysis_of(st, fds).1.edges[i]
                != analysis_of(st, fds).1.edges[j],
        forall|e: EdgeView|
            analysis_of(st, fds).1.edges.contains(e) <==> ({
                let (s1, n1) = definitions_pass(st, fds.file@);
                let (s2, n2) = services_pass(s1, fds.file@);
                edges_pass(s2.node_ids, fds.file@, n1 + n2).1.contains(e)
            }),
{
    let (s1, n1) = definitions_pass(st, fds.file@);
    let (s2, n2) = services_pass(s1, fds.file@);
    lemma_dedup_edges(edges_pass(s2.node_ids, fds.file@, n1 + n2).1);
}

/// The packages of an analysis partition its nodes: no package is listed
/// twice, each lists the ids of the nodes of that package in node order,
/// and every node's package is listed.
pub proof fn lemma_analysis_packages(st: AnalyzerView, fds: FileDescriptorSet)
    ensures
        ({
            let g = analysis_of(st, fds).1;
            &&& forall|i: int, j: int|
                0 <= i < g.packages.len() && 0 <= j < g.packages.len() && i != j
                    ==> g.packages[i].id != g.packages[j].id
            &&& forall|k: int|
                0 <= k < g.packages.len() ==> g.packages[k].node_ids == package_members(
                    g.nodes,
                    g.packages[k].id,
                )
            &&& forall|i: int|
                #![trigger g.nodes[i]]
                0 <= i < g.nodes.len() ==> exists|k: int|
                    0 <= k < g.packages.len() && g.packages[k].id == g.nodes[i].package
        }),
{
    let g = analysis_of(st, fds).1;
    lemma_packages_partition(g.nodes);
    assert(g.packages == packages_of(g.nodes));
}

} // verus!
