//! Node creation and type registration for protobuf definitions.
use vstd::prelude::*;
use vstd::string::*;

use crate::descriptor::{
    opt_view, or_empty, DescriptorProto, EnumDescriptorProto, EnumValueDescriptorProto,
    FieldDescriptorProto, MethodDescriptorProto, ServiceDescriptorProto,
};
use crate::domain::{
    EnumValue, EnumValueView, FieldInfo, FieldInfoView, MessageDef, MessageDefView,
    MethodSignature, MethodSignatureView, Node, NodeDetails, NodeDetailsView, NodeType, NodeView,
};
use crate::domain::duplicate_fields;
use crate::text::{copy_string, trim_dots, trim_leading_dots};

use super::engine::{Analyzer, AnalyzerView};
use super::util::{
    extract_short_type, field_type_text, fq_type_of, generate_fq_type, generate_node_id,
    label_text, label_to_string, node_id_of, short_type_of, type_to_string,
};

verus! {

/// How deep nested messages are registered; deeper ones are left out, so
/// that a hostile descriptor cannot exhaust the stack.
pub const MAX_NESTING_DEPTH: usize = 32;

/// The state with `fq` mapped to node id `id`.
pub open spec fn with_node_id(st: AnalyzerView, fq: Seq<char>, id: Seq<char>) -> AnalyzerView {
    AnalyzerView {
        node_ids: st.node_ids.insert(fq, id),
        message_defs: st.message_defs,
        external_packages: st.external_packages,
    }
}

/// Registers the nested definition `name` under `parent`: its type name is
/// `{parent}.{name}` and its node id that name without leading dots.
pub open spec fn nested_type_registered(st: AnalyzerView, name: Seq<char>, parent: Seq<char>) -> AnalyzerView {
    let fq = parent + "."@ + name;
    with_node_id(st, fq, trim_leading_dots(fq))
}

/// Registers the messages `msgs` nested at `depth` under `parent`, with the
/// messages nested in them, down to `MAX_NESTING_DEPTH`.
pub open spec fn nested_messages_registered(
    st: AnalyzerView,
    msgs: Seq<DescriptorProto>,
    parent: Seq<char>,
    depth: int,
) -> AnalyzerView
    decreases MAX_NESTING_DEPTH - depth, msgs.len(),
{
    if depth >= MAX_NESTING_DEPTH || msgs.len() == 0 {
        st
    } else {
        nested_message_registered(
            nested_messages_registered(st, msgs.drop_last(), parent, depth),
            msgs.last(),
            parent,
            depth,
        )
    }
}

/// Registers one nested message (and, below it, its nested messages).
pub open spec fn nested_message_registered(
    st: AnalyzerView,
    msg: DescriptorProto,
    parent: Seq<char>,
    depth: int,
) -> AnalyzerView
    decreases MAX_NESTING_DEPTH - depth, 0nat,
{
    if depth >= MAX_NESTING_DEPTH {
        st
    } else {
        match msg.name {
            None => st,
            Some(n) => {
                let fq = parent + "."@ + n@;
                nested_messages_registered(
                    nested_type_registered(st, n@, parent),
                    msg.nested_type@,
                    fq,
                    depth + 1,
                )
            },
        }
    }
}

/// Registration stops at `MAX_NESTING_DEPTH`: from there on, nested
/// messages leave the analyzer unchanged however deep they go.
pub proof fn lemma_nesting_limit(st: AnalyzerView, msgs: Seq<DescriptorProto>, parent: Seq<char>, depth: int)
    requires
        depth >= MAX_NESTING_DEPTH,
    ensures
        nested_messages_registered(st, msgs, parent, depth) == st,
        forall|m: DescriptorProto| #[trigger] nested_message_registered(st, m, parent, depth) == st,
{
}

/// Registers an external definition: its type name, and its package.
pub open spec fn external_definition_registered(
    st: AnalyzerView,
    name: Seq<char>,
    package: Seq<char>,
) -> AnalyzerView {
    AnalyzerView {
        node_ids: st.node_ids.insert(fq_type_of(package, name), node_id_of(package, name)),
        message_defs: st.message_defs,
        external_packages: st.external_packages.insert(package),
    }
}

/// Registers a message of an external file, with its nested messages.
pub open spec fn external_type_registered(st: AnalyzerView, msg: DescriptorProto, package: Seq<char>) -> AnalyzerView {
    match msg.name {
        Some(n) => nested_messages_registered(
            external_definition_registered(st, n@, package),
            msg.nested_type@,
            fq_type_of(package, n@),
            0,
        ),
        None => st,
    }
}

/// Registers an enum of an external file.
pub open spec fn external_enum_registered(st: AnalyzerView, e: EnumDescriptorProto, package: Seq<char>) -> AnalyzerView {
    match e.name {
        Some(n) => external_definition_registered(st, n@, package),
        None => st,
    }
}

/// The field as a node shows it.
pub open spec fn field_info_of(f: FieldDescriptorProto) -> FieldInfoView {
    FieldInfoView {
        name: or_empty(f.name),
        number: match f.number {
            Some(n) => n,
            None => 0,
        },
        field_type: field_type_text(f.type_code, opt_view(f.type_ref)),
        label: label_text(f.label),
    }
}

/// A field shows its label as `descriptor.proto` names it (`LABEL_OPTIONAL`
/// = 1, `LABEL_REQUIRED` = 2, `LABEL_REPEATED` = 3, lower case without
/// `LABEL_`), and `optional` when it has none or another code.
pub proof fn lemma_field_labels(f: FieldDescriptorProto)
    ensures
        f.label == Some(2i32) ==> field_info_of(f).label == "required"@,
        f.label == Some(3i32) ==> field_info_of(f).label == "repeated"@,
        !(f.label == Some(2i32) || f.label == Some(3i32)) ==> field_info_of(f).label == "optional"@,
{
}

/// A field with a type reference shows the last segment of the referenced
/// type name.
pub proof fn lemma_referenced_field_type(f: FieldDescriptorProto, prefix: Seq<char>, name: Seq<char>)
    requires
        f.type_ref is Some,
        f.type_ref->0@ == prefix + "."@ + name,
        !name.contains('.'),
    ensures
        field_info_of(f).field_type == name,
{
    reveal_strlit(".");
    let t = prefix + "."@ + name;
    let k = prefix.len() as int;
    assert(t[k] == '.');
    assert forall|j: int| k < j < t.len() implies t[j] != '.' by {
        assert(t[j] == name[j - k - 1]);
    }
    crate::text::lemma_last_dot(t, k);
    assert(t.skip(k + 1) =~= name);
    assert(f.type_ref->0@.len() > 0);
}

/// A field without a type reference shows the protobuf name of its scalar
/// type, as `descriptor.proto` numbers them (`TYPE_DOUBLE` = 1 …
/// `TYPE_SINT64` = 18, lower case without `TYPE_`), and `unknown` for any
/// other code or none.
pub proof fn lemma_scalar_field_types(f: FieldDescriptorProto)
    requires
        f.type_ref is None,
    ensures
        f.type_code == Some(1i32) ==> field_info_of(f).field_type == "double"@,
        f.type_code == Some(2i32) ==> field_info_of(f).field_type == "float"@,
        f.type_code == Some(3i32) ==> field_info_of(f).field_type == "int64"@,
        f.type_code == Some(4i32) ==> field_info_of(f).field_type == "uint64"@,
        f.type_code == Some(5i32) ==> field_info_of(f).field_type == "int32"@,
        f.type_code == Some(6i32) ==> field_info_of(f).field_type == "fixed64"@,
        f.type_code == Some(7i32) ==> field_info_of(f).field_type == "fixed32"@,
        f.type_code == Some(8i32) ==> field_info_of(f).field_type == "bool"@,
        f.type_code == Some(9i32) ==> field_info_of(f).field_type == "string"@,
        f.type_code == Some(10i32) ==> field_info_of(f).field_type == "group"@,
        f.type_code == Some(11i32) ==> field_info_of(f).field_type == "message"@,
        f.type_code == Some(12i32) ==> field_info_of(f).field_type == "bytes"@,
        f.type_code == Some(13i32) ==> field_info_of(f).field_type == "uint32"@,
        f.type_code == Some(14i32) ==> field_info_of(f).field_type == "enum"@,
        f.type_code == Some(15i32) ==> field_info_of(f).field_type == "sfixed32"@,
        f.type_code == Some(16i32) ==> field_info_of(f).field_type == "sfixed64"@,
        f.type_code == Some(17i32) ==> field_info_of(f).field_type == "sint32"@,
        f.type_code == Some(18i32) ==> field_info_of(f).field_type == "sint64"@,
        (f.type_code is None || f.type_code->0 < 1 || f.type_code->0 > 18) ==> field_info_of(f).field_type
            == "unknown"@,
{
}

/// The enum value as a node shows it.
pub open spec fn enum_value_of(v: EnumValueDescriptorProto) -> EnumValueView {
    EnumValueView {
        name: or_empty(v.name),
        number: match v.number {
            Some(n) => n,
            None => 0,
        },
    }
}

/// The RPC method as a node shows it.
pub open spec fn method_signature_of(m: MethodDescriptorProto) -> MethodSignatureView {
    MethodSignatureView {
        name: or_empty(m.name),
        input_type: short_type_of(opt_view(m.input_type)),
        output_type: short_type_of(opt_view(m.output_type)),
    }
}

/// The fields of a message, as its node shows them.
pub open spec fn fields_of(msg: DescriptorProto) -> Seq<FieldInfoView> {
    msg.field@.map_values(|f: FieldDescriptorProto| field_info_of(f))
}

/// The values of an enum, as its node shows them.
pub open spec fn values_of(e: EnumDescriptorProto) -> Seq<EnumValueView> {
    e.value@.map_values(|v: EnumValueDescriptorProto| enum_value_of(v))
}

/// The state with the definition `def` known for the type name `fq`.
pub open spec fn with_message_def(st: AnalyzerView, fq: Seq<char>, def: MessageDefView) -> AnalyzerView {
    AnalyzerView {
        node_ids: st.node_ids,
        message_defs: st.message_defs.insert(fq, def),
        external_packages: st.external_packages,
    }
}

/// The enums `enums` nested under the type name `parent` in a file of the
/// analyzed set: each named one is registered and becomes an enum node whose
/// id is its type name without leading dots.
pub open spec fn nested_enums_nodes(
    st: AnalyzerView,
    enums: Seq<EnumDescriptorProto>,
    parent: Seq<char>,
    package: Seq<char>,
    file: Seq<char>,
) -> (AnalyzerView, Seq<NodeView>)
    decreases enums.len(),
{
    if enums.len() == 0 {
        (st, Seq::empty())
    } else {
        let (s1, n1) = nested_enums_nodes(st, enums.drop_last(), parent, package, file);
        let e = enums.last();
        match e.name {
            Some(n) => {
                let fq = parent + "."@ + n@;
                let id = trim_leading_dots(fq);
                (
                    nested_type_registered(s1, n@, parent),
                    n1.push(
                        NodeView {
                            id,
                            node_type: NodeType::Enum,
                            package,
                            label: n@,
                            file,
                            details: NodeDetailsView::Enum { values: values_of(e) },
                        },
                    ),
                )
            },
            None => (s1, n1),
        }
    }
}

/// The messages `msgs` nested at `depth` under the type name `parent` in a
/// file of the analyzed set, down to `MAX_NESTING_DEPTH`: each named one is
/// registered and becomes a message node (id: its type name without leading
/// dots), followed by the nodes of what is nested in it. Only top-level
/// messages get a definition for the RPC method details.
pub open spec fn nested_messages_nodes(
    st: AnalyzerView,
    msgs: Seq<DescriptorProto>,
    parent: Seq<char>,
    package: Seq<char>,
    file: Seq<char>,
    depth: int,
) -> (AnalyzerView, Seq<NodeView>)
    decreases MAX_NESTING_DEPTH - depth, msgs.len(),
{
    if depth >= MAX_NESTING_DEPTH || msgs.len() == 0 {
        (st, Seq::empty())
    } else {
        let (s1, n1) = nested_messages_nodes(st, msgs.drop_last(), parent, package, file, depth);
        let (s2, n2) = nested_message_nodes(s1, msgs.last(), parent, package, file, depth);
        (s2, n1 + n2)
    }
}

/// One nested message: its node, then the nodes of its nested messages and
/// enums.
pub open spec fn nested_message_nodes(
    st: AnalyzerView,
    msg: DescriptorProto,
    parent: Seq<char>,
    package: Seq<char>,
    file: Seq<char>,
    depth: int,
) -> (AnalyzerView, Seq<NodeView>)
    decreases MAX_NESTING_DEPTH - depth, 0nat,
{
    if depth >= MAX_NESTING_DEPTH {
        (st, Seq::empty())
    } else {
        match msg.name {
            None => (st, Seq::empty()),
            Some(n) => {
                let fq = parent + "."@ + n@;
                let id = trim_leading_dots(fq);
                let fields = fields_of(msg);
                let s1 = nested_type_registered(st, n@, parent);
                let node = NodeView {
                    id,
                    node_type: NodeType::Message,
                    package,
                    label: n@,
                    file,
                    details: NodeDetailsView::Message { fields },
                };
                let (s2, n2) = nested_messages_nodes(s1, msg.nested_type@, fq, package, file, depth + 1);
                let (s3, n3) = nested_enums_nodes(s2, msg.enum_type@, fq, package, file);
                (s3, seq![node] + n2 + n3)
            },
        }
    }
}

/// A message of an analyzed file: the state after registering it (with its
/// nested definitions and its definition), and the nodes: its own, then
/// those of the messages and enums nested in it; nothing for a message
/// without a name.
pub open spec fn message_node_step(
    st: AnalyzerView,
    msg: DescriptorProto,
    package: Seq<char>,
    file: Seq<char>,
) -> (AnalyzerView, Seq<NodeView>) {
    match msg.name {
        None => (st, Seq::empty()),
        Some(n) => {
            let fq = fq_type_of(package, n@);
            let id = node_id_of(package, n@);
            let fields = fields_of(msg);
            let node = NodeView {
                id,
                node_type: NodeType::Message,
                package,
                label: n@,
                file,
                details: NodeDetailsView::Message { fields },
            };
            let (s1, n1) = nested_messages_nodes(with_node_id(st, fq, id), msg.nested_type@, fq, package, file, 0);
            let (s2, n2) = nested_enums_nodes(s1, msg.enum_type@, fq, package, file);
            (with_message_def(s2, fq, MessageDefView { name: n@, fields }), seq![node] + n1 + n2)
        },
    }
}

/// An enum of an analyzed file: the state after registering it, and its node.
pub open spec fn enum_node_step(
    st: AnalyzerView,
    e: EnumDescriptorProto,
    package: Seq<char>,
    file: Seq<char>,
) -> (AnalyzerView, Option<NodeView>) {
    match e.name {
        None => (st, None),
        Some(n) => {
            let id = node_id_of(package, n@);
            (
                with_node_id(st, fq_type_of(package, n@), id),
                Some(
                    NodeView {
                        id,
                        node_type: NodeType::Enum,
                        package,
                        label: n@,
                        file,
                        details: NodeDetailsView::Enum { values: values_of(e) },
                    },
                ),
            )
        },
    }
}

/// The type names an optional reference contributes.
pub open spec fn opt_refs(o: Option<String>) -> Seq<Seq<char>> {
    match o {
        Some(s) => seq![s@],
        None => Seq::empty(),
    }
}

/// The request and response type names of `methods`, in order.
pub open spec fn method_type_refs(methods: Seq<MethodDescriptorProto>) -> Seq<Seq<char>>
    decreases methods.len(),
{
    if methods.len() == 0 {
        Seq::empty()
    } else {
        method_type_refs(methods.drop_last()) + opt_refs(methods.last().input_type) + opt_refs(
            methods.last().output_type,
        )
    }
}

/// The definitions of the type names `refs`, each name taken at its first
/// occurrence, and only where a definition is known.
pub open spec fn defs_for(defs: Map<Seq<char>, MessageDefView>, refs: Seq<Seq<char>>) -> Seq<MessageDefView>
    decreases refs.len(),
{
    if refs.len() == 0 {
        Seq::empty()
    } else {
        let prev = defs_for(defs, refs.drop_last());
        let t = refs.last();
        if !refs.drop_last().contains(t) && defs.dom().contains(t) {
            prev.push(defs[t])
        } else {
            prev
        }
    }
}

/// The method `m` takes or returns the type named `t`.
pub open spec fn method_names_type(m: MethodDescriptorProto, t: Seq<char>) -> bool {
    ||| (m.input_type is Some && m.input_type->0@ == t)
    ||| (m.output_type is Some && m.output_type->0@ == t)
}

proof fn lemma_method_type_refs(methods: Seq<MethodDescriptorProto>, t: Seq<char>)
    ensures
        method_type_refs(methods).contains(t) <==> exists|j: int|
            0 <= j < methods.len() && #[trigger] method_names_type(methods[j], t),
    decreases methods.len(),
{
    if methods.len() > 0 {
        let prev = methods.drop_last();
        lemma_method_type_refs(prev, t);
        let a = method_type_refs(prev);
        let b = opt_refs(methods.last().input_type);
        let c = opt_refs(methods.last().output_type);
        let r = method_type_refs(methods);
        assert(r == a + b + c);
        if r.contains(t) {
            let i = choose|i: int| 0 <= i < r.len() && r[i] == t;
            if i < a.len() {
                assert(a[i] == t);
                let j = choose|j: int| 0 <= j < prev.len() && #[trigger] method_names_type(prev[j], t);
                assert(methods[j] == prev[j]);
            } else {
                assert(method_names_type(methods[methods.len() - 1], t));
            }
        }
        if exists|j: int| 0 <= j < methods.len() && #[trigger] method_names_type(methods[j], t) {
            let j = choose|j: int| 0 <= j < methods.len() && #[trigger] method_names_type(methods[j], t);
            if j < prev.len() {
                assert(prev[j] == methods[j]);
                let i = choose|i: int| 0 <= i < a.len() && a[i] == t;
                assert(r[i] == t);
            } else if methods.last().input_type is Some && methods.last().input_type->0@ == t {
                assert(r[a.len() as int] == t);
            } else {
                assert(r[(a.len() + b.len()) as int] == t);
            }
        }
    }
}

/// The known type names of `refs`, each at its first occurrence.
spec fn known_refs(defs: Map<Seq<char>, MessageDefView>, refs: Seq<Seq<char>>) -> Seq<Seq<char>>
    decreases refs.len(),
{
    if refs.len() == 0 {
        Seq::empty()
    } else {
        let prev = known_refs(defs, refs.drop_last());
        let t = refs.last();
        if !refs.drop_last().contains(t) && defs.dom().contains(t) {
            prev.push(t)
        } else {
            prev
        }
    }
}

proof fn lemma_known_refs(defs: Map<Seq<char>, MessageDefView>, refs: Seq<Seq<char>>)
    ensures
        defs_for(defs, refs) == known_refs(defs, refs).map_values(|t: Seq<char>| defs[t]),
        known_refs(defs, refs).no_duplicates(),
        forall|k: int|
            0 <= k < known_refs(defs, refs).len() ==> refs.contains(#[trigger] known_refs(defs, refs)[k])
                && defs.dom().contains(known_refs(defs, refs)[k]),
        forall|t: Seq<char>| refs.contains(t) && defs.dom().contains(t) ==> known_refs(defs, refs).contains(t),
    decreases refs.len(),
{
    if refs.len() > 0 {
        let prev = refs.drop_last();
        lemma_known_refs(defs, prev);
        let kp = known_refs(defs, prev);
        let k = known_refs(defs, refs);
        let t = refs.last();
        assert(defs_for(defs, refs) =~= k.map_values(|t: Seq<char>| defs[t]));
        assert forall|i: int| 0 <= i < k.len() implies refs.contains(#[trigger] k[i]) && defs.dom().contains(k[i]) by {
            if i < kp.len() {
                assert(k[i] == kp[i]);
                let m = choose|m: int| 0 <= m < prev.len() && prev[m] == kp[i];
                assert(refs[m] == kp[i]);
            } else {
                assert(refs[refs.len() - 1] == k[i]);
            }
        }
        assert forall|u: Seq<char>| refs.contains(u) && defs.dom().contains(u) implies k.contains(u) by {
            let m = choose|m: int| 0 <= m < refs.len() && refs[m] == u;
            if m < prev.len() {
                assert(prev[m] == u);
                assert(prev.contains(u));
                assert(kp.contains(u));
                let i = choose|i: int| 0 <= i < kp.len() && kp[i] == u;
                assert(k[i] == u);
            } else if prev.contains(u) {
                assert(kp.contains(u));
                let i = choose|i: int| 0 <= i < kp.len() && kp[i] == u;
                assert(k[i] == u);
            } else {
                assert(k[k.len() - 1] == u);
            }
        }
        if !prev.contains(t) && defs.dom().contains(t) {
            assert(!kp.contains(t)) by {
                if kp.contains(t) {
                    let i = choose|i: int| 0 <= i < kp.len() && kp[i] == t;
                }
            }
            assert forall|i: int, j: int| 0 <= i < j < k.len() implies k[i] != k[j] by {
                if j == k.len() - 1 {
                    assert(kp[i] == k[i]);
                } else {
                    assert(kp[i] == k[i] && kp[j] == k[j]);
                }
            }
        }
    }
}

/// The type named at position `p` of the methods, counting the request and
/// then the response of each method in turn: `p` = 2 × method index, plus 1
/// for the response.
pub open spec fn refers_at(methods: Seq<MethodDescriptorProto>, p: int, t: Seq<char>) -> bool {
    &&& 0 <= p < 2 * methods.len()
    &&& if p % 2 == 0 {
        methods[p / 2].input_type is Some && methods[p / 2].input_type->0@ == t
    } else {
        methods[p / 2].output_type is Some && methods[p / 2].output_type->0@ == t
    }
}

/// `t1` is named at some position of the methods before every position
/// naming `t2`.
pub open spec fn named_first(methods: Seq<MethodDescriptorProto>, t1: Seq<char>, t2: Seq<char>) -> bool {
    exists|p1: int|
        #[trigger] refers_at(methods, p1, t1) && forall|p2: int| #[trigger]
            refers_at(methods, p2, t2) ==> p1 < p2
}

proof fn lemma_refs_positions(methods: Seq<MethodDescriptorProto>, t: Seq<char>)
    ensures
        method_type_refs(methods).contains(t) <==> exists|p: int| #[trigger] refers_at(methods, p, t),
{
    lemma_method_type_refs(methods, t);
    if method_type_refs(methods).contains(t) {
        let j = choose|j: int| 0 <= j < methods.len() && #[trigger] method_names_type(methods[j], t);
        if methods[j].input_type is Some && methods[j].input_type->0@ == t {
            assert((2 * j) % 2 == 0 && (2 * j) / 2 == j);
            assert(refers_at(methods, 2 * j, t));
        } else {
            assert((2 * j + 1) % 2 == 1 && (2 * j + 1) / 2 == j);
            assert(refers_at(methods, 2 * j + 1, t));
        }
    }
    if exists|p: int| #[trigger] refers_at(methods, p, t) {
        let p = choose|p: int| #[trigger] refers_at(methods, p, t);
        assert(method_names_type(methods[p / 2], t));
    }
}

proof fn lemma_known_refs_order(defs: Map<Seq<char>, MessageDefView>, methods: Seq<MethodDescriptorProto>)
    ensures
        forall|k1: int, k2: int|
            0 <= k1 < k2 < known_refs(defs, method_type_refs(methods)).len() ==> named_first(
                methods,
                #[trigger] known_refs(defs, method_type_refs(methods))[k1],
                #[trigger] known_refs(defs, method_type_refs(methods))[k2],
            ),
    decreases methods.len(),
{
    if methods.len() == 0 {
        return;
    }
    let prev = methods.drop_last();
    lemma_known_refs_order(defs, prev);
    let n0: int = 2 * prev.len() as int;
    let r0 = method_type_refs(prev);
    let m = methods.last();
    let a = opt_refs(m.input_type);
    let b = opt_refs(m.output_type);
    let ra = r0 + a;
    let r = method_type_refs(methods);
    assert(r == ra + b);
    let ts0 = known_refs(defs, r0);
    let ka = known_refs(defs, ra);
    let ts = known_refs(defs, r);
    lemma_known_refs(defs, r0);
    assert forall|p: int, t: Seq<char>| #[trigger] refers_at(prev, p, t) implies refers_at(methods, p, t) by {
        assert(methods[p / 2] == prev[p / 2]);
    }
    assert forall|p: int, t: Seq<char>| #[trigger] refers_at(methods, p, t) && p < n0 implies refers_at(prev, p, t) by {
        assert(methods[p / 2] == prev[p / 2]);
    }
    // The last method names its request at n0 and its response at n0 + 1.
    assert forall|p: int, t: Seq<char>| #[trigger] refers_at(methods, p, t) && p >= n0 implies (p == n0 && a
        == seq![t]) || (p == n0 + 1 && b == seq![t]) by {
        assert(p / 2 == prev.len());
    }
    // The names kept before the last method, then those it adds.
    if a.len() == 1 {
        assert(ra.drop_last() =~= r0);
        assert(ra.last() == a[0]);
    } else {
        assert(ra =~= r0);
    }
    if b.len() == 1 {
        assert(r.drop_last() =~= ra);
        assert(r.last() == b[0]);
    } else {
        assert(r =~= ra);
    }
    assert forall|k1: int, k2: int| 0 <= k1 < k2 < ts.len() implies named_first(
        methods,
        #[trigger] ts[k1],
        #[trigger] ts[k2],
    ) by {
        let t1 = ts[k1];
        let t2 = ts[k2];
        if k2 < ts0.len() {
            assert(ts[k1] == ts0[k1] && ts[k2] == ts0[k2]);
            assert(named_first(prev, ts0[k1], ts0[k2]));
            let p1 = choose|p1: int|
                #[trigger] refers_at(prev, p1, t1) && forall|p2: int| #[trigger] refers_at(prev, p2, t2) ==> p1 < p2;
            assert(refers_at(methods, p1, t1));
            assert forall|p2: int| #[trigger] refers_at(methods, p2, t2) implies p1 < p2 by {
                if p2 < n0 {
                    assert(refers_at(prev, p2, t2));
                }
            }
        } else if k1 < ts0.len() {
            assert(ts[k1] == ts0[k1]);
            assert(r0.contains(ts0[k1]));
            lemma_refs_positions(prev, t1);
            let p1 = choose|p: int| #[trigger] refers_at(prev, p, t1);
            assert(refers_at(methods, p1, t1));
            assert(!r0.contains(t2));
            lemma_refs_positions(prev, t2);
            assert forall|p2: int| #[trigger] refers_at(methods, p2, t2) implies p1 < p2 by {
                if p2 < n0 {
                    assert(refers_at(prev, p2, t2));
                }
            }
        } else {
            // Both are new: the request of the last method, then its response.
            assert(k1 == ts0.len() && k2 == ts0.len() + 1);
            assert(a.len() == 1 && b.len() == 1);
            assert(t1 == a[0] && t2 == b[0]);
            assert(t1 != t2);
            assert((n0) % 2 == 0 && n0 / 2 == prev.len());
            assert(refers_at(methods, n0, t1));
            assert(!r0.contains(t2));
            lemma_refs_positions(prev, t2);
            assert forall|p2: int| #[trigger] refers_at(methods, p2, t2) implies n0 < p2 by {
                if p2 < n0 {
                    assert(refers_at(prev, p2, t2));
                }
            }
        }
    }
}

/// A service node lists the known definitions of exactly the types its
/// methods take or return: each such type once (no type name twice), every
/// request and every response type with a known definition among them,
/// nothing else, and in the order in which the methods first name them.
pub proof fn lemma_service_messages(
    st: AnalyzerView,
    svc: ServiceDescriptorProto,
    package: Seq<char>,
    file: Seq<char>,
)
    requires
        svc.name is Some,
    ensures
        ({
            let ms = service_node_step(st, svc, package, file).1->0.details->messages;
            let defs = st.message_defs;
            exists|ts: Seq<Seq<char>>|
                {
                    &&& #[trigger] ts.no_duplicates()
                    &&& ts.len() == ms.len()
                    &&& forall|k: int|
                        0 <= k < ts.len() ==> {
                            &&& defs.dom().contains(ts[k])
                            &&& ms[k] == defs[ts[k]]
                            &&& exists|j: int|
                                0 <= j < svc.method@.len() && #[trigger] method_names_type(svc.method@[j], ts[k])
                        }
                    &&& forall|j: int, t: Seq<char>|
                        0 <= j < svc.method@.len() && #[trigger] method_names_type(svc.method@[j], t)
                            && defs.dom().contains(t) ==> ts.contains(t)
                    &&& forall|k1: int, k2: int|
                        0 <= k1 < k2 < ts.len() ==> named_first(svc.method@, #[trigger] ts[k1], #[trigger] ts[k2])
                }
        }),
{
    let defs = st.message_defs;
    let refs = method_type_refs(svc.method@);
    lemma_known_refs(defs, refs);
    let ts = known_refs(defs, refs);
    let ms = service_node_step(st, svc, package, file).1->0.details->messages;
    assert(ms == defs_for(defs, refs));
    assert forall|k: int| #![trigger ts[k]] 0 <= k < ts.len() implies exists|j: int|
        0 <= j < svc.method@.len() && #[trigger] method_names_type(svc.method@[j], ts[k]) by {
        assert(refs.contains(ts[k]));
        lemma_method_type_refs(svc.method@, ts[k]);
    }
    assert forall|j: int, t: Seq<char>|
        0 <= j < svc.method@.len() && #[trigger] method_names_type(svc.method@[j], t) && defs.dom().contains(
            t,
        ) implies ts.contains(t) by {
        lemma_method_type_refs(svc.method@, t);
    }
    lemma_known_refs_order(defs, svc.method@);
    assert(ts.no_duplicates());
}

/// A service of an analyzed file: the state after registering its type
/// name, and its node, which lists its methods and the known definitions of
/// the types they take and return.
pub open spec fn service_node_step(
    st: AnalyzerView,
    svc: ServiceDescriptorProto,
    package: Seq<char>,
    file: Seq<char>,
) -> (AnalyzerView, Option<NodeView>) {
    match svc.name {
        None => (st, None),
        Some(n) => {
            let id = node_id_of(package, n@);
            let s1 = with_node_id(st, fq_type_of(package, n@), id);
            (
                s1,
                Some(
                    NodeView {
                        id,
                        node_type: NodeType::Service,
                        package,
                        label: n@,
                        file,
                        details: NodeDetailsView::Service {
                            methods: svc.method@.map_values(
                                |m: MethodDescriptorProto| method_signature_of(m),
                            ),
                            messages: defs_for(s1.message_defs, method_type_refs(svc.method@)),
                        },
                    },
                ),
            )
        },
    }
}

/// The view of an optional node.
pub open spec fn opt_node_view(o: Option<Node>) -> Option<NodeView> {
    match o {
        Some(n) => Some(n@),
        None => None,
    }
}

/// `unwrap_or_default` of an optional string.
pub fn or_default(o: &Option<String>) -> (r: String)
    ensures
        r@ == or_empty(*o),
{
    match o {
        Some(s) => copy_string(s),
        None => String::new(),
    }
}

/// The fields of a message, as its node shows them.
fn field_infos(fields: &Vec<FieldDescriptorProto>) -> (r: Vec<FieldInfo>)
    ensures
        r.deep_view() == fields@.map_values(|f: FieldDescriptorProto| field_info_of(f)),
{
    let mut out: Vec<FieldInfo> = Vec::new();
    for i in 0..fields.len()
        invariant
            out@.len() == i,
            forall|j: int| 0 <= j < i ==> out@[j]@ == field_info_of(fields@[j]),
    {
        let f = &fields[i];
        out.push(
            FieldInfo {
                name: or_default(&f.name),
                number: match f.number {
                    Some(n) => n,
                    None => 0,
                },
                field_type: type_to_string(f.type_code, f.type_ref.as_ref()),
                label: label_to_string(f.label),
            },
        );
    }
    assert(out.deep_view() =~= fields@.map_values(|f: FieldDescriptorProto| field_info_of(f)));
    out
}

/// The values of an enum, as its node shows them.
fn enum_values(values: &Vec<EnumValueDescriptorProto>) -> (r: Vec<EnumValue>)
    ensures
        r.deep_view() == values@.map_values(|v: EnumValueDescriptorProto| enum_value_of(v)),
{
    let mut out: Vec<EnumValue> = Vec::new();
    for i in 0..values.len()
        invariant
            out@.len() == i,
            forall|j: int| 0 <= j < i ==> out@[j]@ == enum_value_of(values@[j]),
    {
        let v = &values[i];
        out.push(
            EnumValue {
                name: or_default(&v.name),
                number: match v.number {
                    Some(n) => n,
                    None => 0,
                },
            },
        );
    }
    assert(out.deep_view() =~= values@.map_values(|v: EnumValueDescriptorProto| enum_value_of(v)));
    out
}

impl Analyzer {
    fn map_type(&mut self, fq: String, id: String)
        ensures
            final(self).state() == with_node_id(old(self).state(), fq@, id@),
    {
        self.type_to_node_id.insert(fq, id);
    }

    fn note_external_package(&mut self, package: &String)
        ensures
            final(self).state() == (AnalyzerView {
                external_packages: old(self).state().external_packages.insert(package@),
                ..old(self).state()
            }),
    {
        let mut i: usize = 0;
        while i < self.external_packages.len() && !(self.external_packages[i] == *package)
            invariant
                i <= self.external_packages@.len(),
                forall|j: int| 0 <= j < i ==> self.external_packages@[j]@ != package@,
            decreases self.external_packages@.len() - i,
        {
            i = i + 1;
        }
        let ghost before = self.external_packages.deep_view();
        if i < self.external_packages.len() {
            assert(before[i as int] == package@);
            assert(before.to_set().insert(package@) =~= before.to_set());
        } else {
            self.external_packages.push(copy_string(package));
            assert(self.external_packages.deep_view() =~= before.push(package@));
            proof {
                before.lemma_push_to_set_commute(package@);
            }
        }
    }

    /// Registers a nested type and returns its type name.
    fn register_nested_type(&mut self, name: &String, parent_fq: &String) -> (fq: String)
        ensures
            final(self).state() == nested_type_registered(old(self).state(), name@, parent_fq@),
            fq@ == parent_fq@ + "."@ + name@,
    {
        let mut fq = copy_string(parent_fq);
        fq.append(".");
        fq.append(name.as_str());
        let id = trim_dots(&fq);
        let r = copy_string(&fq);
        self.map_type(fq, id);
        r
    }

    pub(crate) fn register_nested_message(
        &mut self,
        message: &DescriptorProto,
        parent_fq: &String,
        depth: usize,
    )
        ensures
            final(self).state() == nested_message_registered(
                old(self).state(),
                *message,
                parent_fq@,
                depth as int,
            ),
        decreases MAX_NESTING_DEPTH - depth,
    {
        if depth >= MAX_NESTING_DEPTH {
            return;
        }
        if let Some(name) = &message.name {
            let fq = self.register_nested_type(name, parent_fq);
            let ghost s1 = self.state();
            let nested = &message.nested_type;
            for i in 0..nested.len()
                invariant
                    depth < MAX_NESTING_DEPTH,
                    self.state() == nested_messages_registered(
                        s1,
                        nested@.take(i as int),
                        fq@,
                        depth + 1,
                    ),
            {
                self.register_nested_message(&nested[i], &fq, depth + 1);
                assert(nested@.take(i + 1).drop_last() =~= nested@.take(i as int));
            }
            assert(nested@.take(nested@.len() as int) =~= nested@);
        }
    }

    /// Registers the messages nested in a message of type name `parent_fq`.
    fn register_nested_messages(&mut self, nested: &Vec<DescriptorProto>, parent_fq: &String)
        ensures
            final(self).state() == nested_messages_registered(
                old(self).state(),
                nested@,
                parent_fq@,
                0,
            ),
    {
        let ghost s0 = self.state();
        for i in 0..nested.len()
            invariant
                self.state() == nested_messages_registered(s0, nested@.take(i as int), parent_fq@, 0),
        {
            self.register_nested_message(&nested[i], parent_fq, 0);
            assert(nested@.take(i + 1).drop_last() =~= nested@.take(i as int));
        }
        assert(nested@.take(nested@.len() as int) =~= nested@);
    }

    /// Registers an external definition and returns its type name.
    fn register_external_definition(&mut self, name: &String, package: &String) -> (fq: String)
        ensures
            final(self).state() == external_definition_registered(old(self).state(), name@, package@),
            fq@ == fq_type_of(package@, name@),
    {
        let id = generate_node_id(package, name);
        let fq = generate_fq_type(package, name);
        let r = copy_string(&fq);
        self.map_type(fq, id);
        self.note_external_package(package);
        r
    }

    pub(crate) fn register_external_type(&mut self, message: &DescriptorProto, package: &String)
        ensures
            final(self).state() == external_type_registered(old(self).state(), *message, package@),
    {
        if let Some(name) = &message.name {
            let fq = self.register_external_definition(name, package);
            self.register_nested_messages(&message.nested_type, &fq);
        }
    }

    pub(crate) fn register_external_enum(&mut self, enum_type: &EnumDescriptorProto, package: &String)
        ensures
            final(self).state() == external_enum_registered(old(self).state(), *enum_type, package@),
    {
        if let Some(name) = &enum_type.name {
            self.register_external_definition(name, package);
        }
    }

    /// Registers the enums nested under `parent_fq` and adds their nodes.
    fn add_nested_enums(
        &mut self,
        enums: &Vec<EnumDescriptorProto>,
        parent_fq: &String,
        package: &String,
        file_name: &String,
        nodes: &mut Vec<Node>,
    )
        ensures
            final(self).state() == nested_enums_nodes(
                old(self).state(),
                enums@,
                parent_fq@,
                package@,
                file_name@,
            ).0,
            final(nodes).deep_view() == old(nodes).deep_view() + nested_enums_nodes(
                old(self).state(),
                enums@,
                parent_fq@,
                package@,
                file_name@,
            ).1,
    {
        let ghost st0 = self.state();
        let ghost nodes0 = nodes.deep_view();
        for i in 0..enums.len()
            invariant
                self.state() == nested_enums_nodes(st0, enums@.take(i as int), parent_fq@, package@, file_name@).0,
                nodes.deep_view() == nodes0 + nested_enums_nodes(
                    st0,
                    enums@.take(i as int),
                    parent_fq@,
                    package@,
                    file_name@,
                ).1,
        {
            let e = &enums[i];
            let ghost t = enums@.take(i + 1);
            assert(t.drop_last() =~= enums@.take(i as int));
            assert(t.last() == *e);
            let ghost prev = nested_enums_nodes(st0, enums@.take(i as int), parent_fq@, package@, file_name@);
            let ghost before = nodes.deep_view();
            if let Some(name) = &e.name {
                let fq = self.register_nested_type(name, parent_fq);
                let id = trim_dots(&fq);
                let values = enum_values(&e.value);
                let node = Node::new(
                    id,
                    NodeType::Enum,
                    copy_string(package),
                    copy_string(name),
                    copy_string(file_name),
                    NodeDetails::Enum { values },
                );
                let ghost nv = node.deep_view();
                nodes.push(node);
                assert(nodes.deep_view() =~= before.push(nv));
                assert(nested_enums_nodes(st0, t, parent_fq@, package@, file_name@).1 == prev.1.push(nv));
            } else {
                assert(nested_enums_nodes(st0, t, parent_fq@, package@, file_name@).1 == prev.1);
            }
            assert(nodes.deep_view() =~= nodes0 + nested_enums_nodes(
                st0,
                enums@.take(i + 1),
                parent_fq@,
                package@,
                file_name@,
            ).1);
        }
        assert(enums@.take(enums@.len() as int) =~= enums@);
    }

    /// Registers a nested message at `depth` and adds its node, then those of
    /// what is nested in it, down to `MAX_NESTING_DEPTH`.
    fn add_nested_message(
        &mut self,
        message: &DescriptorProto,
        parent_fq: &String,
        package: &String,
        file_name: &String,
        depth: usize,
        nodes: &mut Vec<Node>,
    )
        ensures
            final(self).state() == nested_message_nodes(
                old(self).state(),
                *message,
                parent_fq@,
                package@,
                file_name@,
                depth as int,
            ).0,
            final(nodes).deep_view() == old(nodes).deep_view() + nested_message_nodes(
                old(self).state(),
                *message,
                parent_fq@,
                package@,
                file_name@,
                depth as int,
            ).1,
        decreases MAX_NESTING_DEPTH - depth,
    {
        let ghost nodes0 = nodes.deep_view();
        if depth >= MAX_NESTING_DEPTH {
            assert(nodes.deep_view() =~= nodes0 + Seq::<NodeView>::empty());
            return;
        }
        match &message.name {
            None => {
                assert(nodes.deep_view() =~= nodes0 + Seq::<NodeView>::empty());
            },
            Some(name) => {
                let fq = self.register_nested_type(name, parent_fq);
                let id = trim_dots(&fq);
                let fields = field_infos(&message.field);
                nodes.push(
                    Node::new(
                        id,
                        NodeType::Message,
                        copy_string(package),
                        copy_string(name),
                        copy_string(file_name),
                        NodeDetails::Message { fields },
                    ),
                );
                let ghost s1 = self.state();
                let ghost nodes1 = nodes.deep_view();
                let nested = &message.nested_type;
                for i in 0..nested.len()
                    invariant
                        depth < MAX_NESTING_DEPTH,
                        self.state() == nested_messages_nodes(
                            s1,
                            nested@.take(i as int),
                            fq@,
                            package@,
                            file_name@,
                            depth + 1,
                        ).0,
                        nodes.deep_view() == nodes1 + nested_messages_nodes(
                            s1,
                            nested@.take(i as int),
                            fq@,
                            package@,
                            file_name@,
                            depth + 1,
                        ).1,
                {
                    assert(nested@.take(i + 1).drop_last() =~= nested@.take(i as int));
                    self.add_nested_message(&nested[i], &fq, package, file_name, depth + 1, nodes);
                    assert(nodes.deep_view() =~= nodes1 + nested_messages_nodes(
                        s1,
                        nested@.take(i + 1),
                        fq@,
                        package@,
                        file_name@,
                        depth + 1,
                    ).1);
                }
                assert(nested@.take(nested@.len() as int) =~= nested@);
                self.add_nested_enums(&message.enum_type, &fq, package, file_name, nodes);
                assert(nodes.deep_view() =~= nodes0 + nested_message_nodes(
                    old(self).state(),
                    *message,
                    parent_fq@,
                    package@,
                    file_name@,
                    depth as int,
                ).1);
            },
        }
    }

    pub(crate) fn create_message_node(
        &mut self,
        message: &DescriptorProto,
        package: &String,
        file_name: &String,
        nodes: &mut Vec<Node>,
    )
        ensures
            final(self).state() == message_node_step(old(self).state(), *message, package@, file_name@).0,
            final(nodes).deep_view() == old(nodes).deep_view() + message_node_step(
                old(self).state(),
                *message,
                package@,
                file_name@,
            ).1,
    {
        let ghost nodes0 = nodes.deep_view();
        let name = match &message.name {
            Some(n) => n,
            None => {
                assert(nodes.deep_view() =~= nodes0 + Seq::<NodeView>::empty());
                return;
            },
        };
        let id = generate_node_id(package, name);
        let fq_type = generate_fq_type(package, name);
        let fields = field_infos(&message.field);
        let def = MessageDef { name: copy_string(name), fields: duplicate_fields(&fields) };
        self.map_type(copy_string(&fq_type), copy_string(&id));
        nodes.push(
            Node::new(
                id,
                NodeType::Message,
                copy_string(package),
                copy_string(name),
                copy_string(file_name),
                NodeDetails::Message { fields },
            ),
        );
        let ghost s1 = self.state();
        let ghost nodes1 = nodes.deep_view();
        let nested = &message.nested_type;
        for i in 0..nested.len()
            invariant
                self.state() == nested_messages_nodes(
                    s1,
                    nested@.take(i as int),
                    fq_type@,
                    package@,
                    file_name@,
                    0,
                ).0,
                nodes.deep_view() == nodes1 + nested_messages_nodes(
                    s1,
                    nested@.take(i as int),
                    fq_type@,
                    package@,
                    file_name@,
                    0,
                ).1,
        {
            assert(nested@.take(i + 1).drop_last() =~= nested@.take(i as int));
            self.add_nested_message(&nested[i], &fq_type, package, file_name, 0, nodes);
            assert(nodes.deep_view() =~= nodes1 + nested_messages_nodes(
                s1,
                nested@.take(i + 1),
                fq_type@,
                package@,
                file_name@,
                0,
            ).1);
        }
        assert(nested@.take(nested@.len() as int) =~= nested@);
        self.add_nested_enums(&message.enum_type, &fq_type, package, file_name, nodes);
        self.type_to_message_def.insert(fq_type, def);
        assert(nodes.deep_view() =~= nodes0 + message_node_step(
            old(self).state(),
            *message,
            package@,
            file_name@,
        ).1);
    }

    pub(crate) fn create_enum_node(
        &mut self,
        enum_type: &EnumDescriptorProto,
        package: &String,
        file_name: &String,
    ) -> (r: Option<Node>)
        ensures
            (final(self).state(), opt_node_view(r)) == enum_node_step(
                old(self).state(),
                *enum_type,
                package@,
                file_name@,
            ),
    {
        let name = match &enum_type.name {
            Some(n) => n,
            None => return None,
        };
        let id = generate_node_id(package, name);
        let fq_type = generate_fq_type(package, name);
        self.map_type(fq_type, copy_string(&id));
        let values = enum_values(&enum_type.value);
        Some(
            Node::new(
                id,
                NodeType::Enum,
                copy_string(package),
                copy_string(name),
                copy_string(file_name),
                NodeDetails::Enum { values },
            ),
        )
    }

    /// Notes the type name `t`: records it as seen, and takes its definition
    /// when it is new and known.
    fn note_type_ref(&self, t: &String, seen: &mut Vec<String>, messages: &mut Vec<MessageDef>)
        ensures
            final(seen).deep_view() == old(seen).deep_view().push(t@),
            final(messages).deep_view() == (if !old(seen).deep_view().contains(t@)
                && self.state().message_defs.dom().contains(t@) {
                old(messages).deep_view().push(self.state().message_defs[t@])
            } else {
                old(messages).deep_view()
            }),
    {
        let mut i: usize = 0;
        while i < seen.len() && !(seen[i] == *t)
            invariant
                i <= seen@.len(),
                forall|j: int| 0 <= j < i ==> seen@[j]@ != t@,
            decreases seen@.len() - i,
        {
            i = i + 1;
        }
        let ghost before_seen = seen.deep_view();
        let ghost before_messages = messages.deep_view();
        if i == seen.len() {
            assert(!before_seen.contains(t@));
            match self.type_to_message_def.get(t) {
                Some(def) => {
                    messages.push(def.duplicate());
                    assert(messages.deep_view() =~= before_messages.push(def@));
                },
                None => {},
            }
        } else {
            assert(before_seen[i as int] == t@);
        }
        seen.push(copy_string(t));
        assert(seen.deep_view() =~= before_seen.push(t@));
    }

    pub(crate) fn create_service_node(
        &mut self,
        service: &ServiceDescriptorProto,
        package: &String,
        file_name: &String,
    ) -> (r: Option<Node>)
        ensures
            (final(self).state(), opt_node_view(r)) == service_node_step(
                old(self).state(),
                *service,
                package@,
                file_name@,
            ),
    {
        let name = match &service.name {
            Some(n) => n,
            None => return None,
        };
        let id = generate_node_id(package, name);
        let fq_type = generate_fq_type(package, name);
        self.map_type(fq_type, copy_string(&id));
        let mut methods: Vec<MethodSignature> = Vec::new();
        for i in 0..service.method.len()
            invariant
                methods@.len() == i,
                forall|j: int| 0 <= j < i ==> methods@[j]@ == method_signature_of(service.method@[j]),
        {
            let m = &service.method[i];
            methods.push(
                MethodSignature {
                    name: or_default(&m.name),
                    input_type: extract_short_type(m.input_type.as_ref()),
                    output_type: extract_short_type(m.output_type.as_ref()),
                },
            );
        }
        assert(methods.deep_view() =~= service.method@.map_values(
            |m: MethodDescriptorProto| method_signature_of(m),
        ));
        let ghost defs = self.state().message_defs;
        let mut seen: Vec<String> = Vec::new();
        let mut messages: Vec<MessageDef> = Vec::new();
        assert(seen.deep_view() =~= method_type_refs(service.method@.take(0)));
        for i in 0..service.method.len()
            invariant
                defs == self.state().message_defs,
                seen.deep_view() == method_type_refs(service.method@.take(i as int)),
                messages.deep_view() == defs_for(defs, seen.deep_view()),
        {
            let method = &service.method[i];
            let ghost refs0 = seen.deep_view();
            if let Some(t) = &method.input_type {
                let ghost r = seen.deep_view();
                self.note_type_ref(t, &mut seen, &mut messages);
                assert(seen.deep_view().drop_last() =~= r);
                assert(seen.deep_view().last() == t@);
                assert(messages.deep_view() == defs_for(defs, seen.deep_view()));
            }
            let ghost refs1 = seen.deep_view();
            assert(refs1 =~= refs0 + opt_refs(method.input_type));
            if let Some(t) = &method.output_type {
                let ghost r = seen.deep_view();
                self.note_type_ref(t, &mut seen, &mut messages);
                assert(seen.deep_view().drop_last() =~= r);
                assert(seen.deep_view().last() == t@);
                assert(messages.deep_view() == defs_for(defs, seen.deep_view()));
            }
            assert(seen.deep_view() =~= refs1 + opt_refs(method.output_type));
            assert(service.method@.take(i + 1).drop_last() =~= service.method@.take(i as int));
        }
        assert(service.method@.take(service.method@.len() as int) =~= service.method@);
        Some(
            Node::new(
                id,
                NodeType::Service,
                copy_string(package),
                copy_string(name),
                copy_string(file_name),
                NodeDetails::Service { methods, messages },
            ),
        )
    }
}

} // verus!
