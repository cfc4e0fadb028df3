//! Markdown report of a dependency graph (for pull request comments).
use vstd::prelude::*;
use vstd::string::*;

use crate::domain::{
    EnumValueView, FieldInfoView, GraphModel, GraphModelView, MethodSignatureView, Node,
    NodeDetails, NodeDetailsView, NodeType, NodeView,
};
use crate::text::{decimal, push_decimal, push_signed_decimal, signed_decimal};

verus! {

/// Renders a graph as a Markdown report.
pub struct MarkdownReporter;

/// The nodes of kind `t`, in order.
pub open spec fn nodes_of_type(nodes: Seq<NodeView>, t: NodeType) -> Seq<NodeView>
    decreases nodes.len(),
{
    if nodes.len() == 0 {
        Seq::empty()
    } else {
        let prev = nodes_of_type(nodes.drop_last(), t);
        if nodes.last().node_type == t {
            prev.push(nodes.last())
        } else {
            prev
        }
    }
}

proof fn lemma_nodes_of_type_len(nodes: Seq<NodeView>, t: NodeType)
    ensures
        nodes_of_type(nodes, t).len() <= nodes.len(),
    decreases nodes.len(),
{
    if nodes.len() > 0 {
        lemma_nodes_of_type_len(nodes.drop_last(), t);
    }
}

/// The number of distinct files the nodes come from.
pub open spec fn file_count(nodes: Seq<NodeView>) -> nat {
    nodes.map_values(|n: NodeView| n.file).to_set().len()
}

pub open spec fn header_text() -> Seq<char> {
    "## 🪸 Coral Proto Dependency Analysis\n\n"@
}

pub open spec fn footer_text() -> Seq<char> {
    "---\n*Generated by [Coral](https://github.com/daisuke8000/coral)*\n"@
}

/// The overview table: files, nodes of each kind, and edges.
pub open spec fn overview_text(m: GraphModelView) -> Seq<char> {
    "### Overview\n| Metric | Count |\n|--------|-------|\n| Files | "@ + decimal(file_count(m.nodes))
        + " |\n| Services | "@ + decimal(nodes_of_type(m.nodes, NodeType::Service).len())
        + " |\n| Messages | "@ + decimal(nodes_of_type(m.nodes, NodeType::Message).len())
        + " |\n| Enums | "@ + decimal(nodes_of_type(m.nodes, NodeType::Enum).len())
        + " |\n| External | "@ + decimal(nodes_of_type(m.nodes, NodeType::External).len())
        + " |\n| Dependencies | "@ + decimal(m.edges.len()) + " |\n\n"@
}

/// The heading of a node's entry: its label, package and file.
pub open spec fn node_heading(n: NodeView) -> Seq<char> {
    "#### "@ + n.label + "\n**Package**: `"@ + n.package + "` | **File**: `"@ + n.file + "`\n\n"@
}

pub open spec fn method_row(m: MethodSignatureView) -> Seq<char> {
    "| "@ + m.name + " | "@ + m.input_type + " | "@ + m.output_type + " |\n"@
}

pub open spec fn method_rows(ms: Seq<MethodSignatureView>) -> Seq<char>
    decreases ms.len(),
{
    if ms.len() == 0 {
        Seq::empty()
    } else {
        method_rows(ms.drop_last()) + method_row(ms.last())
    }
}

pub open spec fn field_row(f: FieldInfoView) -> Seq<char> {
    "| "@ + signed_decimal(f.number as int) + " | "@ + f.name + " | "@ + f.field_type + " | "@ + f.label
        + " |\n"@
}

pub open spec fn field_rows(fs: Seq<FieldInfoView>) -> Seq<char>
    decreases fs.len(),
{
    if fs.len() == 0 {
        Seq::empty()
    } else {
        field_rows(fs.drop_last()) + field_row(fs.last())
    }
}

pub open spec fn value_row(v: EnumValueView) -> Seq<char> {
    "| "@ + v.name + " | "@ + signed_decimal(v.number as int) + " |\n"@
}

pub open spec fn value_rows(vs: Seq<EnumValueView>) -> Seq<char>
    decreases vs.len(),
{
    if vs.len() == 0 {
        Seq::empty()
    } else {
        value_rows(vs.drop_last()) + value_row(vs.last())
    }
}

/// A service's entry: heading, then its methods when it has some.
pub open spec fn service_text(n: NodeView) -> Seq<char> {
    node_heading(n) + match n.details {
        NodeDetailsView::Service { methods, .. } => if methods.len() > 0 {
            "| Method | Input | Output |\n"@ + "|--------|-------|--------|\n"@ + method_rows(methods) + "\n"@
        } else {
            Seq::empty()
        },
        _ => Seq::empty(),
    }
}

/// A message's entry: heading, then its fields when it has some.
pub open spec fn message_text(n: NodeView) -> Seq<char> {
    node_heading(n) + match n.details {
        NodeDetailsView::Message { fields } => if fields.len() > 0 {
            "| # | Field | Type | Label |\n"@ + "|---|-------|------|-------|\n"@ + field_rows(fields) + "\n"@
        } else {
            Seq::empty()
        },
        _ => Seq::empty(),
    }
}

/// An enum's entry: heading, then its values when it has some.
pub open spec fn enum_text(n: NodeView) -> Seq<char> {
    node_heading(n) + match n.details {
        NodeDetailsView::Enum { values } => if values.len() > 0 {
            "| Value | Number |\n"@ + "|-------|--------|\n"@ + value_rows(values) + "\n"@
        } else {
            Seq::empty()
        },
        _ => Seq::empty(),
    }
}

/// The entry of a node in the section of kind `t`.
pub open spec fn item_text(t: NodeType, n: NodeView) -> Seq<char> {
    match t {
        NodeType::Service => service_text(n),
        NodeType::Message => message_text(n),
        NodeType::Enum => enum_text(n),
        NodeType::External => Seq::empty(),
    }
}

pub open spec fn items_text(t: NodeType, ns: Seq<NodeView>) -> Seq<char>
    decreases ns.len(),
{
    if ns.len() == 0 {
        Seq::empty()
    } else {
        items_text(t, ns.drop_last()) + item_text(t, ns.last())
    }
}

/// The collapsible section for the nodes of kind `t`; nothing when there are none.
pub open spec fn section_text(nodes: Seq<NodeView>, t: NodeType, heading: Seq<char>) -> Seq<char> {
    let items = nodes_of_type(nodes, t);
    if items.len() == 0 {
        Seq::empty()
    } else {
        "<details>\n<summary>"@ + heading + " ("@ + decimal(items.len()) + ")</summary>\n\n"@ + items_text(
            t,
            items,
        ) + "</details>\n\n"@
    }
}

/// The whole report: header, overview, the sections for services, messages
/// and enums, footer.
pub open spec fn report_text(m: GraphModelView) -> Seq<char> {
    header_text() + overview_text(m) + section_text(m.nodes, NodeType::Service, "📡 Services"@)
        + section_text(m.nodes, NodeType::Message, "📦 Messages"@) + section_text(
        m.nodes,
        NodeType::Enum,
        "🏷️ Enums"@,
    ) + footer_text()
}

proof fn lemma_nodes_of_type_filter(nodes: Seq<NodeView>, t: NodeType, pred: spec_fn(NodeView) -> bool)
    requires
        forall|n: NodeView| #[trigger] pred(n) <==> n.node_type == t,
    ensures
        nodes_of_type(nodes, t) == nodes.filter(pred),
    decreases nodes.len(),
{
    reveal(Seq::filter);
    if nodes.len() > 0 {
        lemma_nodes_of_type_filter(nodes.drop_last(), t, pred);
    }
}

/// The report opens with its header and the overview table: the number of
/// distinct files among the nodes, the numbers of service, message, enum and
/// external nodes, and the number of edges.
#[verifier::rlimit(60)]
#[verifier::spinoff_prover]
pub proof fn lemma_report_overview(m: GraphModelView)
    ensures
        (header_text() + "### Overview\n| Metric | Count |\n|--------|-------|\n| Files | "@ + decimal(
            m.nodes.map_values(|n: NodeView| n.file).to_set().len(),
        ) + " |\n| Services | "@ + decimal(
            m.nodes.filter(|n: NodeView| n.node_type == NodeType::Service).len(),
        ) + " |\n| Messages | "@ + decimal(
            m.nodes.filter(|n: NodeView| n.node_type == NodeType::Message).len(),
        ) + " |\n| Enums | "@ + decimal(m.nodes.filter(|n: NodeView| n.node_type == NodeType::Enum).len())
            + " |\n| External | "@ + decimal(
            m.nodes.filter(|n: NodeView| n.node_type == NodeType::External).len(),
        ) + " |\n| Dependencies | "@ + decimal(m.edges.len()) + " |\n\n"@).is_prefix_of(report_text(m)),
{
    lemma_nodes_of_type_filter(m.nodes, NodeType::Service, |n: NodeView| n.node_type == NodeType::Service);
    lemma_nodes_of_type_filter(m.nodes, NodeType::Message, |n: NodeView| n.node_type == NodeType::Message);
    lemma_nodes_of_type_filter(m.nodes, NodeType::Enum, |n: NodeView| n.node_type == NodeType::Enum);
    lemma_nodes_of_type_filter(m.nodes, NodeType::External, |n: NodeView| n.node_type == NodeType::External);
    let ov = overview_text(m);
    let after = section_text(m.nodes, NodeType::Service, "📡 Services"@) + section_text(
        m.nodes,
        NodeType::Message,
        "📦 Messages"@,
    ) + section_text(m.nodes, NodeType::Enum, "🏷️ Enums"@) + footer_text();
    assert(report_text(m) =~= (header_text() + ov) + after);
    let full = header_text() + ov;
    assert(report_text(m).subrange(0, full.len() as int) =~= full);
}

/// A node from a file that another node already comes from leaves the
/// number of distinct files unchanged; one from a new file adds one.
pub proof fn lemma_distinct_files_push(nodes: Seq<NodeView>, n: NodeView)
    ensures
        (exists|i: int| 0 <= i < nodes.len() && nodes[i].file == n.file) ==> nodes.push(n).map_values(
            |x: NodeView| x.file,
        ).to_set().len() == nodes.map_values(|x: NodeView| x.file).to_set().len(),
        !(exists|i: int| 0 <= i < nodes.len() && nodes[i].file == n.file) ==> nodes.push(n).map_values(
            |x: NodeView| x.file,
        ).to_set().len() == nodes.map_values(|x: NodeView| x.file).to_set().len() + 1,
{
    broadcast use vstd::seq_lib::seq_to_set_is_finite, vstd::set::group_set_axioms;

    let fs = nodes.map_values(|x: NodeView| x.file);
    let fs2 = nodes.push(n).map_values(|x: NodeView| x.file);
    assert(fs2 =~= fs.push(n.file));
    assert forall|f: Seq<char>| fs.push(n.file).contains(f) <==> fs.to_set().insert(n.file).contains(f) by {
        if fs.push(n.file).contains(f) {
            let j = choose|j: int| 0 <= j < fs.push(n.file).len() && fs.push(n.file)[j] == f;
            if j < fs.len() {
                assert(fs[j] == f);
            }
        }
        if fs.contains(f) {
            let j = choose|j: int| 0 <= j < fs.len() && fs[j] == f;
            assert(fs.push(n.file)[j] == f);
        }
        if f == n.file {
            assert(fs.push(n.file)[fs.len() as int] == f);
        }
    }
    assert(fs.push(n.file).to_set() =~= fs.to_set().insert(n.file));
    if exists|i: int| 0 <= i < nodes.len() && nodes[i].file == n.file {
        let i = choose|i: int| 0 <= i < nodes.len() && nodes[i].file == n.file;
        assert(fs[i] == n.file);
        assert(fs.to_set().contains(n.file));
        assert(fs.to_set().insert(n.file) =~= fs.to_set());
    } else {
        assert(!fs.to_set().contains(n.file)) by {
            if fs.to_set().contains(n.file) {
                let j = choose|j: int| 0 <= j < fs.len() && fs[j] == n.file;
                assert(nodes[j].file == n.file);
            }
        }
    }
}

impl MarkdownReporter {
    /// The Markdown report of `model`.
    #[must_use]
    pub fn generate(model: &GraphModel) -> (r: String)
        ensures
            r@ == report_text(model@),
    {
        let mut output = String::new();
        let header = Self::render_header();
        output.append(header.as_str());
        let overview = Self::render_overview(model);
        output.append(overview.as_str());
        let services = Self::render_section(model, NodeType::Service, "📡 Services");
        output.append(services.as_str());
        let messages = Self::render_section(model, NodeType::Message, "📦 Messages");
        output.append(messages.as_str());
        let enums = Self::render_section(model, NodeType::Enum, "🏷️ Enums");
        output.append(enums.as_str());
        let footer = Self::render_footer();
        output.append(footer.as_str());
        assert(output@ =~= report_text(model@));
        output
    }

    fn render_header() -> (r: String)
        ensures
            r@ == header_text(),
    {
        String::from_str("## 🪸 Coral Proto Dependency Analysis\n\n")
    }

    fn render_footer() -> (r: String)
        ensures
            r@ == footer_text(),
    {
        String::from_str("---\n*Generated by [Coral](https://github.com/daisuke8000/coral)*\n")
    }

    fn render_overview(model: &GraphModel) -> (r: String)
        ensures
            r@ == overview_text(model@),
    {
        let ghost nv = model.nodes.deep_view();
        let mut services: usize = 0;
        let mut messages: usize = 0;
        let mut enums: usize = 0;
        let mut externals: usize = 0;
        let mut files: Vec<String> = Vec::new();
        for i in 0..model.nodes.len()
            invariant
                nv == model.nodes.deep_view(),
                services == nodes_of_type(nv.take(i as int), NodeType::Service).len(),
                messages == nodes_of_type(nv.take(i as int), NodeType::Message).len(),
                enums == nodes_of_type(nv.take(i as int), NodeType::Enum).len(),
                externals == nodes_of_type(nv.take(i as int), NodeType::External).len(),
                files.deep_view().no_duplicates(),
                files.deep_view().to_set() == nv.take(i as int).map_values(|n: NodeView| n.file).to_set(),
        {
            let node = &model.nodes[i];
            let ghost prefix = nv.take(i as int);
            assert(nv.take(i + 1).drop_last() =~= prefix);
            assert(nv.take(i + 1).last() == node@);
            proof {
                lemma_nodes_of_type_len(prefix, NodeType::Service);
                lemma_nodes_of_type_len(prefix, NodeType::Message);
                lemma_nodes_of_type_len(prefix, NodeType::Enum);
                lemma_nodes_of_type_len(prefix, NodeType::External);
            }
            match node.node_type {
                NodeType::Service => services = services + 1,
                NodeType::Message => messages = messages + 1,
                NodeType::Enum => enums = enums + 1,
                NodeType::External => externals = externals + 1,
            }
            let ghost fv = files.deep_view();
            let mut k: usize = 0;
            while k < files.len() && !(files[k] == node.file)
                invariant
                    fv == files.deep_view(),
                    k <= files@.len(),
                    forall|j: int| 0 <= j < k ==> fv[j] != node.file@,
                decreases files@.len() - k,
            {
                k = k + 1;
            }
            assert(nv.take(i + 1).map_values(|n: NodeView| n.file) =~= prefix.map_values(
                |n: NodeView| n.file,
            ).push(node.file@));
            proof {
                prefix.map_values(|n: NodeView| n.file).lemma_push_to_set_commute(node.file@);
            }
            if k == files.len() {
                files.push(crate::text::copy_string(&node.file));
                assert(files.deep_view() =~= fv.push(node.file@));
                proof {
                    fv.lemma_push_to_set_commute(node.file@);
                }
            } else {
                assert(fv[k as int] == node.file@);
                assert(fv.to_set().contains(node.file@));
                assert(fv.to_set().insert(node.file@) =~= fv.to_set());
            }
        }
        assert(nv.take(nv.len() as int) =~= nv);
        proof {
            files.deep_view().unique_seq_to_set();
        }
        let mut out = String::from_str("### Overview\n| Metric | Count |\n|--------|-------|\n| Files | ");
        push_decimal(&mut out, files.len() as u64);
        out.append(" |\n| Services | ");
        push_decimal(&mut out, services as u64);
        out.append(" |\n| Messages | ");
        push_decimal(&mut out, messages as u64);
        out.append(" |\n| Enums | ");
        push_decimal(&mut out, enums as u64);
        out.append(" |\n| External | ");
        push_decimal(&mut out, externals as u64);
        out.append(" |\n| Dependencies | ");
        push_decimal(&mut out, model.edges.len() as u64);
        out.append(" |\n\n");
        assert(out@ =~= overview_text(model@));
        out
    }

    fn render_node_heading(node: &Node, out: &mut String)
        ensures
            final(out)@ == old(out)@ + node_heading(node@),
    {
        let ghost start = out@;
        out.append("#### ");
        out.append(node.label.as_str());
        out.append("\n**Package**: `");
        out.append(node.package.as_str());
        out.append("` | **File**: `");
        out.append(node.file.as_str());
        out.append("`\n\n");
        assert(out@ =~= start + node_heading(node@));
    }

    fn render_service(node: &Node) -> (r: String)
        ensures
            r@ == service_text(node@),
    {
        let mut output = String::new();
        Self::render_node_heading(node, &mut output);
        let ghost h = output@;
        match &node.details {
            NodeDetails::Service { methods, .. } => {
                if methods.len() > 0 {
                    output.append("| Method | Input | Output |\n");
                    output.append("|--------|-------|--------|\n");
                    let ghost t0 = output@;
                    let ghost mv = methods.deep_view();
                    for i in 0..methods.len()
                        invariant
                            mv == methods.deep_view(),
                            output@ == t0 + method_rows(mv.take(i as int)),
                    {
                        let m = &methods[i];
                        let ghost before = output@;
                        output.append("| ");
                        output.append(m.name.as_str());
                        output.append(" | ");
                        output.append(m.input_type.as_str());
                        output.append(" | ");
                        output.append(m.output_type.as_str());
                        output.append(" |\n");
                        assert(mv.take(i + 1).drop_last() =~= mv.take(i as int));
                        assert(mv.take(i + 1).last() == m@);
                        assert(output@ =~= before + method_row(m@));
                    }
                    assert(mv.take(mv.len() as int) =~= mv);
                    output.append("\n");
                }
            },
            _ => {},
        }
        assert(output@ =~= service_text(node@));
        output
    }

    fn render_message(node: &Node) -> (r: String)
        ensures
            r@ == message_text(node@),
    {
        let mut output = String::new();
        Self::render_node_heading(node, &mut output);
        match &node.details {
            NodeDetails::Message { fields } => {
                if fields.len() > 0 {
                    output.append("| # | Field | Type | Label |\n");
                    output.append("|---|-------|------|-------|\n");
                    let ghost t0 = output@;
                    let ghost fv = fields.deep_view();
                    for i in 0..fields.len()
                        invariant
                            fv == fields.deep_view(),
                            output@ == t0 + field_rows(fv.take(i as int)),
                    {
                        let f = &fields[i];
                        let ghost before = output@;
                        output.append("| ");
                        push_signed_decimal(&mut output, f.number);
                        output.append(" | ");
                        output.append(f.name.as_str());
                        output.append(" | ");
                        output.append(f.field_type.as_str());
                        output.append(" | ");
                        output.append(f.label.as_str());
                        output.append(" |\n");
                        assert(fv.take(i + 1).drop_last() =~= fv.take(i as int));
                        assert(fv.take(i + 1).last() == f@);
                        assert(output@ =~= before + field_row(f@));
                    }
                    assert(fv.take(fv.len() as int) =~= fv);
                    output.append("\n");
                }
            },
            _ => {},
        }
        assert(output@ =~= message_text(node@));
        output
    }

    fn render_enum(node: &Node) -> (r: String)
        ensures
            r@ == enum_text(node@),
    {
        let mut output = String::new();
        Self::render_node_heading(node, &mut output);
        match &node.details {
            NodeDetails::Enum { values } => {
                if values.len() > 0 {
                    output.append("| Value | Number |\n");
                    output.append("|-------|--------|\n");
                    let ghost t0 = output@;
                    let ghost vv = values.deep_view();
                    for i in 0..values.len()
                        invariant
                            vv == values.deep_view(),
                            output@ == t0 + value_rows(vv.take(i as int)),
                    {
                        let v = &values[i];
                        let ghost before = output@;
                        output.append("| ");
                        output.append(v.name.as_str());
                        output.append(" | ");
                        push_signed_decimal(&mut output, v.number);
                        output.append(" |\n");
                        assert(vv.take(i + 1).drop_last() =~= vv.take(i as int));
                        assert(vv.take(i + 1).last() == v@);
                        assert(output@ =~= before + value_row(v@));
                    }
                    assert(vv.take(vv.len() as int) =~= vv);
                    output.append("\n");
                }
            },
            _ => {},
        }
        assert(output@ =~= enum_text(node@));
        output
    }

    fn render_item(node_type: NodeType, node: &Node) -> (r: String)
        ensures
            r@ == item_text(node_type, node@),
    {
        match node_type {
            NodeType::Service => Self::render_service(node),
            NodeType::Message => Self::render_message(node),
            NodeType::Enum => Self::render_enum(node),
            NodeType::External => String::new(),
        }
    }

    fn render_section(model: &GraphModel, node_type: NodeType, heading: &str) -> (r: String)
        ensures
            r@ == section_text(model@.nodes, node_type, heading@),
    {
        let ghost nv = model.nodes.deep_view();
        let mut count: usize = 0;
        let mut body = String::new();
        for i in 0..model.nodes.len()
            invariant
                nv == model.nodes.deep_view(),
                count == nodes_of_type(nv.take(i as int), node_type).len(),
                body@ == items_text(node_type, nodes_of_type(nv.take(i as int), node_type)),
        {
            let node = &model.nodes[i];
            let ghost prefix = nv.take(i as int);
            assert(nv.take(i + 1).drop_last() =~= prefix);
            assert(nv.take(i + 1).last() == node@);
            proof {
                lemma_nodes_of_type_len(prefix, node_type);
            }
            if node.node_type == node_type {
                let item = Self::render_item(node_type, node);
                body.append(item.as_str());
                count = count + 1;
                assert(nodes_of_type(nv.take(i + 1), node_type) =~= nodes_of_type(prefix, node_type).push(
                    node@,
                ));
                assert(nodes_of_type(nv.take(i + 1), node_type).drop_last() =~= nodes_of_type(
                    prefix,
                    node_type,
                ));
            }
        }
        assert(nv.take(nv.len() as int) =~= nv);
        if count == 0 {
            return String::new();
        }
        let mut output = String::from_str("<details>\n<summary>");
        output.append(heading);
        output.append(" (");
        push_decimal(&mut output, count as u64);
        output.append(")</summary>\n\n");
        output.append(body.as_str());
        output.append("</details>\n\n");
        assert(output@ =~= section_text(model@.nodes, node_type, heading@));
        output
    }
}

} // verus!
