//! Diff computation: what was added, removed and modified between two graphs.
use vstd::prelude::*;

use crate::domain::{
    EnumValue, EnumValueView, FieldInfo, FieldInfoView, GraphModel, MethodSignature,
    MethodSignatureView, Node, NodeDetails, NodeDetailsView, NodeType, NodeView,
};
use crate::text::{
    copy_string, lemma_seq_less_asymmetric, lemma_seq_less_irreflexive, lemma_seq_less_total,
    lemma_seq_less_transitive, seq_less, string_less,
};

verus! {

/// A node as a diff lists it.
#[derive(Clone, Debug)]
pub struct DiffNode {
    pub id: String,
    pub label: String,
    pub package: String,
}

pub struct DiffNodeView {
    pub id: Seq<char>,
    pub label: Seq<char>,
    pub package: Seq<char>,
}

impl View for DiffNode {
    type V = DiffNodeView;

    open spec fn view(&self) -> DiffNodeView {
        DiffNodeView { id: self.id@, label: self.label@, package: self.package@ }
    }
}

impl DeepView for DiffNode {
    type V = DiffNodeView;

    open spec fn deep_view(&self) -> DiffNodeView {
        self@
    }
}

/// The diff entry of a node.
pub open spec fn diff_node_of(n: NodeView) -> DiffNodeView {
    DiffNodeView { id: n.id, label: n.label, package: n.package }
}

impl<'a> From<&'a Node> for DiffNode {
    fn from(node: &'a Node) -> (r: Self) {
        DiffNode { id: node.id.clone(), label: node.label.clone(), package: node.package.clone() }
    }
}

impl<'a> vstd::std_specs::convert::FromSpecImpl<&'a Node> for DiffNode {
    open spec fn obeys_from_spec() -> bool {
        true
    }

    open spec fn from_spec(node: &'a Node) -> DiffNode {
        DiffNode {
            id: node.id,
            label: node.label,
            package: node.package,
        }
    }
}

/// Nodes of a diff, by kind (external nodes are not listed).
#[derive(Clone, Debug)]
pub struct DiffItems {
    pub services: Vec<DiffNode>,
    pub messages: Vec<DiffNode>,
    pub enums: Vec<DiffNode>,
}

pub struct DiffItemsView {
    pub services: Seq<DiffNodeView>,
    pub messages: Seq<DiffNodeView>,
    pub enums: Seq<DiffNodeView>,
}

impl View for DiffItems {
    type V = DiffItemsView;

    open spec fn view(&self) -> DiffItemsView {
        DiffItemsView {
            services: self.services.deep_view(),
            messages: self.messages.deep_view(),
            enums: self.enums.deep_view(),
        }
    }
}

impl Default for DiffItems {
    fn default() -> (r: Self)
        ensures
            r@.services.len() == 0,
            r@.messages.len() == 0,
            r@.enums.len() == 0,
    {
        DiffItems { services: Vec::new(), messages: Vec::new(), enums: Vec::new() }
    }
}

/// The number of listed nodes.
pub open spec fn items_count(items: DiffItemsView) -> nat {
    items.services.len() + items.messages.len() + items.enums.len()
}

impl DiffItems {
    /// No node is listed.
    #[must_use]
    pub fn is_empty(&self) -> (r: bool)
        ensures
            r == (items_count(self@) == 0),
    {
        self.services.len() == 0 && self.messages.len() == 0 && self.enums.len() == 0
    }

    /// The number of listed nodes.
    #[must_use]
    pub fn total_count(&self) -> (r: usize)
        requires
            items_count(self@) <= usize::MAX,
        ensures
            r == items_count(self@),
    {
        self.services.len() + self.messages.len() + self.enums.len()
    }
}

/// One change inside a modified node.
#[derive(Clone, Debug)]
pub enum Change {
    FieldAdded { field: FieldInfo },
    FieldRemoved { field: FieldInfo },
    MethodAdded { method: MethodSignature },
    MethodRemoved { method: MethodSignature },
    EnumValueAdded { value: EnumValue },
    EnumValueRemoved { value: EnumValue },
}

pub enum ChangeView {
    FieldAdded { field: FieldInfoView },
    FieldRemoved { field: FieldInfoView },
    MethodAdded { method: MethodSignatureView },
    MethodRemoved { method: MethodSignatureView },
    EnumValueAdded { value: EnumValueView },
    EnumValueRemoved { value: EnumValueView },
}

impl View for Change {
    type V = ChangeView;

    open spec fn view(&self) -> ChangeView {
        match self {
            Change::FieldAdded { field } => ChangeView::FieldAdded { field: field@ },
            Change::FieldRemoved { field } => ChangeView::FieldRemoved { field: field@ },
            Change::MethodAdded { method } => ChangeView::MethodAdded { method: method@ },
            Change::MethodRemoved { method } => ChangeView::MethodRemoved { method: method@ },
            Change::EnumValueAdded { value } => ChangeView::EnumValueAdded { value: value@ },
            Change::EnumValueRemoved { value } => ChangeView::EnumValueRemoved { value: value@ },
        }
    }
}

impl DeepView for Change {
    type V = ChangeView;

    open spec fn deep_view(&self) -> ChangeView {
        self@
    }
}

/// A node present in both graphs whose fields, methods or values changed.
#[derive(Clone, Debug)]
pub struct ModifiedItem {
    pub node_id: String,
    pub label: String,
    pub node_type: NodeType,
    pub package: String,
    pub changes: Vec<Change>,
}

pub struct ModifiedItemView {
    pub node_id: Seq<char>,
    pub label: Seq<char>,
    pub node_type: NodeType,
    pub package: Seq<char>,
    pub changes: Seq<ChangeView>,
}

impl View for ModifiedItem {
    type V = ModifiedItemView;

    open spec fn view(&self) -> ModifiedItemView {
        ModifiedItemView {
            node_id: self.node_id@,
            label: self.label@,
            node_type: self.node_type,
            package: self.package@,
            changes: self.changes.deep_view(),
        }
    }
}

impl DeepView for ModifiedItem {
    type V = ModifiedItemView;

    open spec fn deep_view(&self) -> ModifiedItemView {
        self@
    }
}

/// The changes between a base graph and a head graph.
#[derive(Clone, Debug)]
pub struct DiffReport {
    pub added: DiffItems,
    pub removed: DiffItems,
    pub modified: Vec<ModifiedItem>,
}

pub struct DiffReportView {
    pub added: DiffItemsView,
    pub removed: DiffItemsView,
    pub modified: Seq<ModifiedItemView>,
}

impl View for DiffReport {
    type V = DiffReportView;

    open spec fn view(&self) -> DiffReportView {
        DiffReportView {
            added: self.added@,
            removed: self.removed@,
            modified: self.modified.deep_view(),
        }
    }
}

/// The report lists some change.
pub open spec fn report_has_changes(r: DiffReportView) -> bool {
    items_count(r.added) != 0 || items_count(r.removed) != 0 || r.modified.len() != 0
}

/// A named entry of a node (field, method, enum value), compared by name.
pub trait DiffEntry: Sized + View {
    spec fn entry_name(v: <Self as View>::V) -> Seq<char>;

    spec fn added_change(v: <Self as View>::V) -> ChangeView;

    spec fn removed_change(v: <Self as View>::V) -> ChangeView;

    fn name_ref(&self) -> (r: &String)
        ensures
            r@ == Self::entry_name(self@),
    ;

    fn to_added(&self) -> (c: Change)
        ensures
            c@ == Self::added_change(self@),
    ;

    fn to_removed(&self) -> (c: Change)
        ensures
            c@ == Self::removed_change(self@),
    ;
}

impl DiffEntry for FieldInfo {
    open spec fn entry_name(v: FieldInfoView) -> Seq<char> {
        v.name
    }

    open spec fn added_change(v: FieldInfoView) -> ChangeView {
        ChangeView::FieldAdded { field: v }
    }

    open spec fn removed_change(v: FieldInfoView) -> ChangeView {
        ChangeView::FieldRemoved { field: v }
    }

    fn name_ref(&self) -> (r: &String) {
        &self.name
    }

    fn to_added(&self) -> (c: Change) {
        Change::FieldAdded { field: self.duplicate() }
    }

    fn to_removed(&self) -> (c: Change) {
        Change::FieldRemoved { field: self.duplicate() }
    }
}

impl DiffEntry for MethodSignature {
    open spec fn entry_name(v: MethodSignatureView) -> Seq<char> {
        v.name
    }

    open spec fn added_change(v: MethodSignatureView) -> ChangeView {
        ChangeView::MethodAdded { method: v }
    }

    open spec fn removed_change(v: MethodSignatureView) -> ChangeView {
        ChangeView::MethodRemoved { method: v }
    }

    fn name_ref(&self) -> (r: &String) {
        &self.name
    }

    fn to_added(&self) -> (c: Change) {
        Change::MethodAdded { method: self.duplicate() }
    }

    fn to_removed(&self) -> (c: Change) {
        Change::MethodRemoved { method: self.duplicate() }
    }
}

impl DiffEntry for EnumValue {
    open spec fn entry_name(v: EnumValueView) -> Seq<char> {
        v.name
    }

    open spec fn added_change(v: EnumValueView) -> ChangeView {
        ChangeView::EnumValueAdded { value: v }
    }

    open spec fn removed_change(v: EnumValueView) -> ChangeView {
        ChangeView::EnumValueRemoved { value: v }
    }

    fn name_ref(&self) -> (r: &String) {
        &self.name
    }

    fn to_added(&self) -> (c: Change) {
        Change::EnumValueAdded { value: self.duplicate() }
    }

    fn to_removed(&self) -> (c: Change) {
        Change::EnumValueRemoved { value: self.duplicate() }
    }
}

/// The names of the entries `s`.
pub open spec fn names_of<T: DiffEntry>(s: Seq<<T as View>::V>) -> Seq<Seq<char>> {
    s.map_values(|v: <T as View>::V| T::entry_name(v))
}

/// The entries of `from` whose name `other` lacks, each name at its first
/// occurrence in `from`.
pub open spec fn new_entries<T: DiffEntry>(from: Seq<<T as View>::V>, other: Seq<<T as View>::V>) -> Seq<
    <T as View>::V,
>
    decreases from.len(),
{
    if from.len() == 0 {
        Seq::empty()
    } else {
        let prev = new_entries::<T>(from.drop_last(), other);
        let n = T::entry_name(from.last());
        if names_of::<T>(other).contains(n) || names_of::<T>(from.drop_last()).contains(n) {
            prev
        } else {
            prev.push(from.last())
        }
    }
}

/// The changes between two lists of entries: the added ones (by name), then
/// the removed ones, each group in the order of its list.
pub open spec fn entry_changes<T: DiffEntry>(base: Seq<<T as View>::V>, head: Seq<<T as View>::V>) -> Seq<
    ChangeView,
> {
    new_entries::<T>(head, base).map_values(|v: <T as View>::V| T::added_change(v))
        + new_entries::<T>(base, head).map_values(|v: <T as View>::V| T::removed_change(v))
}

/// The views of `s`, element by element.
pub open spec fn views_of<T: View>(s: Seq<T>) -> Seq<<T as View>::V> {
    s.map_values(|x: T| x@)
}

/// Is `name` the name of some entry of `items`?
fn has_name<T: DiffEntry>(items: &Vec<T>, end: usize, name: &String) -> (r: bool)
    requires
        end <= items@.len(),
    ensures
        r == names_of::<T>(views_of(items@).take(end as int)).contains(name@),
{
    let ghost names = names_of::<T>(views_of(items@).take(end as int));
    let mut j: usize = 0;
    while j < end
        invariant
            end <= items@.len(),
            j <= end,
            names == names_of::<T>(views_of(items@).take(end as int)),
            forall|k: int| 0 <= k < j ==> names[k] != name@,
        decreases end - j,
    {
        if *items[j].name_ref() == *name {
            assert(names[j as int] == name@);
            return true;
        }
        j = j + 1;
    }
    false
}

/// Appends the changes for the entries of `from` that `other` lacks.
fn push_new_entries<T: DiffEntry>(from: &Vec<T>, other: &Vec<T>, added: bool, out: &mut Vec<Change>)
    ensures
        final(out).deep_view() == old(out).deep_view() + (if added {
            new_entries::<T>(views_of(from@), views_of(other@)).map_values(
                |v: <T as View>::V| T::added_change(v),
            )
        } else {
            new_entries::<T>(views_of(from@), views_of(other@)).map_values(
                |v: <T as View>::V| T::removed_change(v),
            )
        }),
{
    let ghost out0 = out.deep_view();
    let ghost ov = views_of(other@);
    let ghost f = |v: <T as View>::V|
        if added {
            T::added_change(v)
        } else {
            T::removed_change(v)
        };
    for i in 0..from.len()
        invariant
            ov == views_of(other@),
            forall|v: <T as View>::V|
                #[trigger] f(v) == if added {
                    T::added_change(v)
                } else {
                    T::removed_change(v)
                },
            out.deep_view() == out0 + new_entries::<T>(views_of(from@).take(i as int), ov).map_values(f),
    {
        let x = &from[i];
        let ghost fv = views_of(from@);
        assert(fv.take(i + 1).drop_last() =~= fv.take(i as int));
        assert(fv.take(i + 1).last() == x@);
        assert(views_of(other@).take(other@.len() as int) =~= views_of(other@));
        let in_other = has_name(other, other.len(), x.name_ref());
        let earlier = has_name(from, i, x.name_ref());
        let ghost prev = out.deep_view();
        if !in_other && !earlier {
            if added {
                let c = x.to_added();
                assert(c@ == f(x@));
                out.push(c);
                assert(out@[prev.len() as int]@ == f(x@));
            } else {
                let c = x.to_removed();
                assert(c@ == f(x@));
                out.push(c);
                assert(out@[prev.len() as int]@ == f(x@));
            }
            assert(out.deep_view()[prev.len() as int] == f(x@));
            assert(out.deep_view() =~= prev.push(f(x@)));
        }
        assert(out.deep_view() =~= out0 + new_entries::<T>(fv.take(i + 1), ov).map_values(f));
    }
    assert(views_of(from@).take(from@.len() as int) =~= views_of(from@));
    if added {
        assert(new_entries::<T>(views_of(from@), ov).map_values(f) =~= new_entries::<T>(
            views_of(from@),
            ov,
        ).map_values(|v: <T as View>::V| T::added_change(v)));
    } else {
        assert(new_entries::<T>(views_of(from@), ov).map_values(f) =~= new_entries::<T>(
            views_of(from@),
            ov,
        ).map_values(|v: <T as View>::V| T::removed_change(v)));
    }
}

/// The changes between two lists of entries (added, then removed).
pub fn compute_item_changes<T: DiffEntry>(base_items: &Vec<T>, head_items: &Vec<T>) -> (r: Vec<Change>)
    ensures
        r.deep_view() == entry_changes::<T>(views_of(base_items@), views_of(head_items@)),
{
    let mut changes: Vec<Change> = Vec::new();
    push_new_entries(head_items, base_items, true, &mut changes);
    push_new_entries(base_items, head_items, false, &mut changes);
    assert(changes.deep_view() =~= entry_changes::<T>(views_of(base_items@), views_of(head_items@)));
    changes
}

/// The changes of a node present in both graphs: entries added and
/// removed, when both are services, messages or enums; none otherwise.
pub open spec fn node_changes(b: NodeView, h: NodeView) -> Seq<ChangeView> {
    match b.details {
        NodeDetailsView::Service { methods: bm, .. } => match h.details {
            NodeDetailsView::Service { methods: hm, .. } => entry_changes::<MethodSignature>(bm, hm),
            _ => Seq::empty(),
        },
        NodeDetailsView::Message { fields: bf } => match h.details {
            NodeDetailsView::Message { fields: hf } => entry_changes::<FieldInfo>(bf, hf),
            _ => Seq::empty(),
        },
        NodeDetailsView::Enum { values: bv } => match h.details {
            NodeDetailsView::Enum { values: hv } => entry_changes::<EnumValue>(bv, hv),
            _ => Seq::empty(),
        },
        NodeDetailsView::External => Seq::empty(),
    }
}

/// The modified entry of a node, named after the head version.
pub open spec fn modified_item_of(b: NodeView, h: NodeView) -> ModifiedItemView {
    ModifiedItemView {
        node_id: h.id,
        label: h.label,
        node_type: h.node_type,
        package: h.package,
        changes: node_changes(b, h),
    }
}

proof fn lemma_deep_view_is_views<T: View + DeepView<V = <T as View>::V>>(v: Vec<T>)
    requires
        forall|x: T| #[trigger] x.deep_view() == x@,
    ensures
        v.deep_view() == views_of(v@),
{
    assert(v.deep_view() =~= views_of(v@));
}

/// The changes between two versions of a node, if there are any.
fn compute_node_changes(base: &Node, head: &Node) -> (r: Option<ModifiedItem>)
    ensures
        match r {
            Some(m) => node_changes(base@, head@).len() > 0 && m@ == modified_item_of(base@, head@),
            None => node_changes(base@, head@).len() == 0,
        },
{
    let changes: Vec<Change> = match &base.details {
        NodeDetails::Service { methods: base_methods, .. } => match &head.details {
            NodeDetails::Service { methods: head_methods, .. } => {
                proof {
                    lemma_deep_view_is_views(*base_methods);
                    lemma_deep_view_is_views(*head_methods);
                }
                compute_item_changes(base_methods, head_methods)
            },
            _ => Vec::new(),
        },
        NodeDetails::Message { fields: base_fields } => match &head.details {
            NodeDetails::Message { fields: head_fields } => {
                proof {
                    lemma_deep_view_is_views(*base_fields);
                    lemma_deep_view_is_views(*head_fields);
                }
                compute_item_changes(base_fields, head_fields)
            },
            _ => Vec::new(),
        },
        NodeDetails::Enum { values: base_values } => match &head.details {
            NodeDetails::Enum { values: head_values } => {
                proof {
                    lemma_deep_view_is_views(*base_values);
                    lemma_deep_view_is_views(*head_values);
                }
                compute_item_changes(base_values, head_values)
            },
            _ => Vec::new(),
        },
        NodeDetails::External => Vec::new(),
    };
    assert(changes.deep_view() =~= node_changes(base@, head@));
    if changes.len() == 0 {
        None
    } else {
        Some(
            ModifiedItem {
                node_id: copy_string(&head.id),
                label: copy_string(&head.label),
                node_type: head.node_type,
                package: copy_string(&head.package),
                changes,
            },
        )
    }
}

/// Each id mapped to the last node with that id (a later node replaces an
/// earlier one, as when collecting into a hash map).
pub open spec fn nodes_by_id(nodes: Seq<NodeView>) -> Map<Seq<char>, NodeView>
    decreases nodes.len(),
{
    if nodes.len() == 0 {
        Map::empty()
    } else {
        nodes_by_id(nodes.drop_last()).insert(nodes.last().id, nodes.last())
    }
}

/// `i` is the last position of its id in `nodes`.
pub open spec fn is_last_of_id(nodes: Seq<NodeView>, i: int) -> bool {
    0 <= i < nodes.len() && forall|j: int| i < j < nodes.len() ==> nodes[j].id != nodes[i].id
}

proof fn lemma_by_id_dom(nodes: Seq<NodeView>, k: Seq<char>)
    ensures
        nodes_by_id(nodes).dom().contains(k) <==> exists|i: int| 0 <= i < nodes.len() && nodes[i].id == k,
    decreases nodes.len(),
{
    if nodes.len() > 0 {
        let p = nodes.drop_last();
        lemma_by_id_dom(p, k);
        if nodes_by_id(nodes).dom().contains(k) && k != nodes.last().id {
            let i = choose|i: int| 0 <= i < p.len() && p[i].id == k;
            assert(nodes[i].id == k);
        }
        if exists|i: int| 0 <= i < nodes.len() && nodes[i].id == k {
            let i = choose|i: int| 0 <= i < nodes.len() && nodes[i].id == k;
            if i < nodes.len() - 1 {
                assert(p[i].id == k);
            }
        }
    }
}

proof fn lemma_by_id_last(nodes: Seq<NodeView>, i: int)
    requires
        is_last_of_id(nodes, i),
    ensures
        nodes_by_id(nodes).dom().contains(nodes[i].id),
        nodes_by_id(nodes)[nodes[i].id] == nodes[i],
    decreases nodes.len(),
{
    let n = nodes.len() - 1;
    if i < n {
        let p = nodes.drop_last();
        assert(nodes[n].id != nodes[i].id);
        assert(is_last_of_id(p, i));
        lemma_by_id_last(p, i);
    }
}

proof fn lemma_by_id_has_last(nodes: Seq<NodeView>, k: Seq<char>)
    requires
        nodes_by_id(nodes).dom().contains(k),
    ensures
        exists|i: int| is_last_of_id(nodes, i) && nodes[i].id == k,
    decreases nodes.len(),
{
    let n = nodes.len() - 1;
    if k == nodes.last().id {
        assert(is_last_of_id(nodes, n));
    } else {
        let p = nodes.drop_last();
        lemma_by_id_has_last(p, k);
        let i = choose|i: int| is_last_of_id(p, i) && p[i].id == k;
        assert forall|j: int| i < j < nodes.len() implies nodes[j].id != nodes[i].id by {
            if j < n {
                assert(nodes[j] == p[j]);
            }
        }
        assert(is_last_of_id(nodes, i));
    }
}

/// What the id map holds: the ids of the nodes, each with its last node.
pub proof fn lemma_nodes_by_id(nodes: Seq<NodeView>)
    ensures
        forall|k: Seq<char>|
            nodes_by_id(nodes).dom().contains(k) <==> exists|i: int| 0 <= i < nodes.len() && nodes[i].id == k,
        forall|i: int| is_last_of_id(nodes, i) ==> nodes_by_id(nodes)[nodes[i].id] == nodes[i],
        forall|k: Seq<char>|
            nodes_by_id(nodes).dom().contains(k) ==> exists|i: int| is_last_of_id(nodes, i) && nodes[i].id == k,
{
    assert forall|k: Seq<char>|
        nodes_by_id(nodes).dom().contains(k) <==> exists|i: int| 0 <= i < nodes.len() && nodes[i].id == k by {
        lemma_by_id_dom(nodes, k);
    }
    assert forall|i: int| is_last_of_id(nodes, i) implies nodes_by_id(nodes)[nodes[i].id] == nodes[i] by {
        lemma_by_id_last(nodes, i);
    }
    assert forall|k: Seq<char>| nodes_by_id(nodes).dom().contains(k) implies exists|i: int|
        is_last_of_id(nodes, i) && nodes[i].id == k by {
        lemma_by_id_has_last(nodes, k);
    }
}

/// Strictly increasing ids.
pub open spec fn sorted_ids(s: Seq<DiffNodeView>) -> bool {
    sorted_by_key::<DiffNode>(s)
}

/// `list` is exactly the nodes of kind `t` among the ids `ids` (taken from
/// `m`), in increasing id order.
pub open spec fn lists_exactly(
    list: Seq<DiffNodeView>,
    ids: Set<Seq<char>>,
    m: Map<Seq<char>, NodeView>,
    t: NodeType,
) -> bool {
    &&& sorted_ids(list)
    &&& forall|i: int|
        0 <= i < list.len() ==> {
            &&& ids.contains(list[i].id)
            &&& m.dom().contains(list[i].id)
            &&& m[list[i].id].node_type == t
            &&& list[i] == diff_node_of(m[list[i].id])
        }
    &&& forall|k: Seq<char>|
        ids.contains(k) && m.dom().contains(k) && m[k].node_type == t ==> exists|i: int|
            0 <= i < list.len() && list[i].id == k
}

/// The services, messages and enums among the ids `ids`, each kind sorted.
pub open spec fn items_exactly(items: DiffItemsView, ids: Set<Seq<char>>, m: Map<Seq<char>, NodeView>) -> bool {
    &&& lists_exactly(items.services, ids, m, NodeType::Service)
    &&& lists_exactly(items.messages, ids, m, NodeType::Message)
    &&& lists_exactly(items.enums, ids, m, NodeType::Enum)
}

/// `list` is exactly the nodes of both maps with changes, by increasing id.
pub open spec fn modified_exactly(
    list: Seq<ModifiedItemView>,
    bm: Map<Seq<char>, NodeView>,
    hm: Map<Seq<char>, NodeView>,
) -> bool {
    &&& sorted_by_key::<ModifiedItem>(list)
    &&& forall|i: int|
        0 <= i < list.len() ==> {
            &&& bm.dom().contains(list[i].node_id)
            &&& hm.dom().contains(list[i].node_id)
            &&& node_changes(bm[list[i].node_id], hm[list[i].node_id]).len() > 0
            &&& list[i] == modified_item_of(bm[list[i].node_id], hm[list[i].node_id])
        }
    &&& forall|k: Seq<char>|
        bm.dom().contains(k) && hm.dom().contains(k) && node_changes(bm[k], hm[k]).len() > 0
            ==> exists|i: int| 0 <= i < list.len() && list[i].node_id == k
}

/// `r` is the diff from the nodes `base` to the nodes `head`: nodes are
/// matched by id (the last node with an id stands for it); added are the ids
/// only in head, removed those only in base, modified those in both whose
/// entries changed.
pub open spec fn is_diff_of(r: DiffReportView, base: Seq<NodeView>, head: Seq<NodeView>) -> bool {
    let bm = nodes_by_id(base);
    let hm = nodes_by_id(head);
    &&& items_exactly(r.added, hm.dom().difference(bm.dom()), hm)
    &&& items_exactly(r.removed, bm.dom().difference(hm.dom()), bm)
    &&& modified_exactly(r.modified, bm, hm)
}

/// The last position of `id` in `nodes`, if any.
fn last_index_of(nodes: &Vec<Node>, id: &String) -> (r: Option<usize>)
    ensures
        match r {
            Some(i) => is_last_of_id(nodes.deep_view(), i as int) && nodes.deep_view()[i as int].id == id@,
            None => forall|j: int| 0 <= j < nodes@.len() ==> nodes.deep_view()[j].id != id@,
        },
{
    let mut k: usize = nodes.len();
    while k > 0 && !(nodes[k - 1].id == *id)
        invariant
            k <= nodes@.len(),
            forall|j: int| k <= j < nodes@.len() ==> nodes.deep_view()[j].id != id@,
        decreases k,
    {
        k = k - 1;
    }
    if k == 0 {
        None
    } else {
        Some(k - 1)
    }
}

/// Values listed in the order of a text key.
pub trait SortKey: View {
    spec fn key_of(v: <Self as View>::V) -> Seq<char>;

    fn key(&self) -> (r: &String)
        ensures
            r@ == Self::key_of(self@),
    ;
}

impl SortKey for DiffNode {
    open spec fn key_of(v: DiffNodeView) -> Seq<char> {
        v.id
    }

    fn key(&self) -> (r: &String) {
        &self.id
    }
}

impl SortKey for ModifiedItem {
    open spec fn key_of(v: ModifiedItemView) -> Seq<char> {
        v.node_id
    }

    fn key(&self) -> (r: &String) {
        &self.node_id
    }
}

/// Strictly increasing keys.
pub open spec fn sorted_by_key<T: SortKey>(s: Seq<<T as View>::V>) -> bool {
    forall|i: int, j: int| 0 <= i < j < s.len() ==> seq_less(T::key_of(s[i]), T::key_of(s[j]))
}

/// Inserts `x` into `list`, keeping keys strictly increasing.
fn insert_sorted<T: SortKey>(list: &mut Vec<T>, x: T)
    requires
        sorted_by_key::<T>(views_of(old(list)@)),
        forall|i: int| 0 <= i < old(list)@.len() ==> T::key_of(old(list)@[i]@) != T::key_of(x@),
    ensures
        sorted_by_key::<T>(views_of(final(list)@)),
        forall|e: <T as View>::V|
            views_of(final(list)@).contains(e) <==> (views_of(old(list)@).contains(e) || e == x@),
{
    let ghost old_v = views_of(list@);
    let ghost xv = x@;
    let mut p: usize = 0;
    while p < list.len() && string_less(list[p].key(), x.key())
        invariant
            views_of(list@) == old_v,
            xv == x@,
            p <= list@.len(),
            forall|i: int| 0 <= i < p ==> seq_less(T::key_of(old_v[i]), T::key_of(xv)),
        decreases list@.len() - p,
    {
        assert(old_v[p as int] == list@[p as int]@);
        p = p + 1;
    }
    proof {
        if p < old_v.len() {
            lemma_seq_less_total(T::key_of(old_v[p as int]), T::key_of(xv));
        }
    }
    list.insert(p, x);
    let ghost new_v = views_of(list@);
    assert(new_v =~= old_v.insert(p as int, xv));
    assert forall|i: int, j: int| 0 <= i < j < new_v.len() implies seq_less(
        T::key_of(new_v[i]),
        T::key_of(new_v[j]),
    ) by {
        if j < p {
        } else if j == p {
        } else if i < p {
            lemma_seq_less_transitive(T::key_of(new_v[i]), T::key_of(xv), T::key_of(old_v[p as int]));
            if j - 1 > p {
                lemma_seq_less_transitive(
                    T::key_of(new_v[i]),
                    T::key_of(old_v[p as int]),
                    T::key_of(new_v[j]),
                );
            }
        } else if i == p {
            if j - 1 > p {
                lemma_seq_less_transitive(T::key_of(xv), T::key_of(old_v[p as int]), T::key_of(new_v[j]));
            }
        } else {
            assert(new_v[i] == old_v[i - 1]);
            assert(new_v[j] == old_v[j - 1]);
        }
    }
    assert forall|e: <T as View>::V| new_v.contains(e) <==> (old_v.contains(e) || e == xv) by {
        if new_v.contains(e) {
            let i = choose|i: int| 0 <= i < new_v.len() && new_v[i] == e;
            if i < p {
                assert(old_v[i] == e);
            } else if i > p {
                assert(old_v[i - 1] == e);
            }
        }
        if old_v.contains(e) {
            let i = choose|i: int| 0 <= i < old_v.len() && old_v[i] == e;
            if i < p {
                assert(new_v[i] == e);
            } else {
                assert(new_v[i + 1] == e);
            }
        }
        if e == xv {
            assert(new_v[p as int] == e);
        }
    }
}

/// The first `i` nodes are handled: `list` holds, sorted, exactly the
/// nodes of kind `t` with ids in `ids` whose last position is below `i`.
pub open spec fn listed_upto(
    list: Seq<DiffNodeView>,
    nodes: Seq<NodeView>,
    ids: Set<Seq<char>>,
    t: NodeType,
    i: int,
) -> bool {
    let m = nodes_by_id(nodes);
    &&& sorted_ids(list)
    &&& forall|a: int|
        0 <= a < list.len() ==> {
            &&& ids.contains(list[a].id)
            &&& m.dom().contains(list[a].id)
            &&& m[list[a].id].node_type == t
            &&& list[a] == diff_node_of(m[list[a].id])
            &&& exists|j: int| 0 <= j < i && is_last_of_id(nodes, j) && nodes[j].id == list[a].id
        }
    &&& forall|j: int|
        0 <= j < i && is_last_of_id(nodes, j) && ids.contains(nodes[j].id) && nodes[j].node_type == t
            ==> exists|a: int| 0 <= a < list.len() && list[a].id == nodes[j].id
}

proof fn lemma_listed_fresh(l: Seq<DiffNodeView>, nv: Seq<NodeView>, ids: Set<Seq<char>>, t: NodeType, i: int)
    requires
        listed_upto(l, nv, ids, t, i),
        is_last_of_id(nv, i),
    ensures
        forall|a: int| 0 <= a < l.len() ==> l[a].id != nv[i].id,
{
    assert forall|a: int| 0 <= a < l.len() implies l[a].id != nv[i].id by {
        if l[a].id == nv[i].id {
            let j = choose|j: int| 0 <= j < i && is_last_of_id(nv, j) && nv[j].id == l[a].id;
            assert(nv[i].id == nv[j].id);
        }
    }
}

proof fn lemma_listed_insert(
    old_l: Seq<DiffNodeView>,
    new_l: Seq<DiffNodeView>,
    nv: Seq<NodeView>,
    ids: Set<Seq<char>>,
    t: NodeType,
    i: int,
)
    requires
        listed_upto(old_l, nv, ids, t, i),
        is_last_of_id(nv, i),
        ids.contains(nv[i].id),
        nv[i].node_type == t,
        sorted_ids(new_l),
        forall|e: DiffNodeView| new_l.contains(e) <==> (old_l.contains(e) || e == diff_node_of(nv[i])),
    ensures
        listed_upto(new_l, nv, ids, t, i + 1),
{
    let m = nodes_by_id(nv);
    let xv = diff_node_of(nv[i]);
    lemma_by_id_last(nv, i);
    assert forall|a: int| 0 <= a < new_l.len() implies {
        &&& ids.contains(new_l[a].id)
        &&& m.dom().contains(new_l[a].id)
        &&& m[new_l[a].id].node_type == t
        &&& new_l[a] == diff_node_of(m[new_l[a].id])
        &&& exists|j: int| 0 <= j < i + 1 && is_last_of_id(nv, j) && nv[j].id == new_l[a].id
    } by {
        assert(new_l.contains(new_l[a]));
        if new_l[a] == xv {
            assert(is_last_of_id(nv, i) && nv[i].id == new_l[a].id);
        } else {
            let b = choose|b: int| 0 <= b < old_l.len() && old_l[b] == new_l[a];
            let j = choose|j: int| 0 <= j < i && is_last_of_id(nv, j) && nv[j].id == old_l[b].id;
            assert(is_last_of_id(nv, j) && nv[j].id == new_l[a].id);
        }
    }
    assert forall|j: int|
        0 <= j < i + 1 && is_last_of_id(nv, j) && ids.contains(nv[j].id) && nv[j].node_type == t
            implies exists|a: int| 0 <= a < new_l.len() && new_l[a].id == nv[j].id by {
        if j == i {
            assert(new_l.contains(xv));
        } else {
            let b = choose|b: int| 0 <= b < old_l.len() && old_l[b].id == nv[j].id;
            assert(old_l.contains(old_l[b]));
            assert(new_l.contains(old_l[b]));
        }
    }
}

proof fn lemma_listed_skip(l: Seq<DiffNodeView>, nv: Seq<NodeView>, ids: Set<Seq<char>>, t: NodeType, i: int)
    requires
        listed_upto(l, nv, ids, t, i),
        0 <= i < nv.len(),
        !(is_last_of_id(nv, i) && ids.contains(nv[i].id) && nv[i].node_type == t),
    ensures
        listed_upto(l, nv, ids, t, i + 1),
{
    let m = nodes_by_id(nv);
    assert forall|a: int| #![trigger l[a]] 0 <= a < l.len() implies exists|j: int|
        0 <= j < i + 1 && is_last_of_id(nv, j) && nv[j].id == l[a].id by {
        let j = choose|j: int| 0 <= j < i && is_last_of_id(nv, j) && nv[j].id == l[a].id;
    }
}

/// Handles node `i` for the list of kind `t`.
fn note_diff_node(
    list: &mut Vec<DiffNode>,
    nodes: &Vec<Node>,
    i: usize,
    t: NodeType,
    take: bool,
    Ghost(ids): Ghost<Set<Seq<char>>>,
)
    requires
        i < nodes@.len(),
        listed_upto(views_of(old(list)@), nodes.deep_view(), ids, t, i as int),
        take == (is_last_of_id(nodes.deep_view(), i as int) && ids.contains(
            nodes.deep_view()[i as int].id,
        )),
    ensures
        listed_upto(views_of(final(list)@), nodes.deep_view(), ids, t, i + 1),
{
    let ghost nv = nodes.deep_view();
    let ghost old_l = views_of(list@);
    assert(nv[i as int] == nodes@[i as int]@);
    if take && nodes[i].node_type == t {
        let x = DiffNode::from(&nodes[i]);
        proof {
            lemma_listed_fresh(old_l, nv, ids, t, i as int);
            assert forall|a: int| 0 <= a < list@.len() implies DiffNode::key_of(list@[a]@)
                != DiffNode::key_of(x@) by {
                assert(old_l[a] == list@[a]@);
            }
        }
        insert_sorted(list, x);
        proof {
            lemma_listed_insert(old_l, views_of(list@), nv, ids, t, i as int);
        }
    } else {
        proof {
            lemma_listed_skip(old_l, nv, ids, t, i as int);
        }
    }
}

/// The nodes of `nodes` whose id `other` lacks, by kind, each sorted by id
/// (by difference of the id sets).
fn collect_diff_items(nodes: &Vec<Node>, other: &Vec<Node>) -> (items: DiffItems)
    ensures
        items_exactly(
            items@,
            nodes_by_id(nodes.deep_view()).dom().difference(nodes_by_id(other.deep_view()).dom()),
            nodes_by_id(nodes.deep_view()),
        ),
{
    let ghost nv = nodes.deep_view();
    let ghost ov = other.deep_view();
    let ghost ids = nodes_by_id(nv).dom().difference(nodes_by_id(ov).dom());
    let mut items = DiffItems::default();
    for i in 0..nodes.len()
        invariant
            nv == nodes.deep_view(),
            ov == other.deep_view(),
            ids == nodes_by_id(nv).dom().difference(nodes_by_id(ov).dom()),
            listed_upto(views_of(items.services@), nv, ids, NodeType::Service, i as int),
            listed_upto(views_of(items.messages@), nv, ids, NodeType::Message, i as int),
            listed_upto(views_of(items.enums@), nv, ids, NodeType::Enum, i as int),
    {
        let id = &nodes[i].id;
        let is_last = match last_index_of(nodes, id) {
            Some(j) => j == i,
            None => false,
        };
        let in_other = match last_index_of(other, id) {
            Some(_) => true,
            None => false,
        };
        proof {
            lemma_by_id_dom(nv, nv[i as int].id);
            lemma_by_id_dom(ov, nv[i as int].id);
            assert(nv[i as int].id == id@);
            if is_last_of_id(nv, i as int) {
                let j = choose|j: int| i < j < nv.len() && nv[j].id == id@;
            }
        }
        let take = is_last && !in_other;
        note_diff_node(&mut items.services, nodes, i, NodeType::Service, take, Ghost(ids));
        note_diff_node(&mut items.messages, nodes, i, NodeType::Message, take, Ghost(ids));
        note_diff_node(&mut items.enums, nodes, i, NodeType::Enum, take, Ghost(ids));
    }
    proof {
        lemma_nodes_by_id(nv);
        let m = nodes_by_id(nv);
        assert forall|k: Seq<char>| ids.contains(k) && m.dom().contains(k) implies exists|j: int|
            0 <= j < nv.len() && is_last_of_id(nv, j) && nv[j].id == k by {
            let j = choose|j: int| is_last_of_id(nv, j) && nv[j].id == k;
        }
        lemma_deep_view_is_views(items.services);
        lemma_deep_view_is_views(items.messages);
        lemma_deep_view_is_views(items.enums);
    }
    items
}

/// The first `i` base nodes are handled: `list` holds, sorted, exactly the
/// changed nodes whose last position in `base` is below `i`.
pub open spec fn modified_upto(
    list: Seq<ModifiedItemView>,
    base: Seq<NodeView>,
    head: Seq<NodeView>,
    i: int,
) -> bool {
    let bm = nodes_by_id(base);
    let hm = nodes_by_id(head);
    &&& sorted_by_key::<ModifiedItem>(list)
    &&& forall|a: int|
        0 <= a < list.len() ==> {
            &&& bm.dom().contains(list[a].node_id)
            &&& hm.dom().contains(list[a].node_id)
            &&& node_changes(bm[list[a].node_id], hm[list[a].node_id]).len() > 0
            &&& list[a] == modified_item_of(bm[list[a].node_id], hm[list[a].node_id])
            &&& exists|j: int| 0 <= j < i && is_last_of_id(base, j) && base[j].id == list[a].node_id
        }
    &&& forall|j: int|
        0 <= j < i && is_last_of_id(base, j) && hm.dom().contains(base[j].id) && node_changes(
            bm[base[j].id],
            hm[base[j].id],
        ).len() > 0 ==> exists|a: int| 0 <= a < list.len() && list[a].node_id == base[j].id
}

proof fn lemma_modified_fresh(l: Seq<ModifiedItemView>, bv: Seq<NodeView>, hv: Seq<NodeView>, i: int)
    requires
        modified_upto(l, bv, hv, i),
        is_last_of_id(bv, i),
    ensures
        forall|a: int| 0 <= a < l.len() ==> l[a].node_id != bv[i].id,
{
    assert forall|a: int| 0 <= a < l.len() implies l[a].node_id != bv[i].id by {
        if l[a].node_id == bv[i].id {
            let j = choose|j: int| 0 <= j < i && is_last_of_id(bv, j) && bv[j].id == l[a].node_id;
            assert(bv[i].id == bv[j].id);
        }
    }
}

proof fn lemma_modified_insert(
    old_l: Seq<ModifiedItemView>,
    new_l: Seq<ModifiedItemView>,
    bv: Seq<NodeView>,
    hv: Seq<NodeView>,
    i: int,
    xv: ModifiedItemView,
)
    requires
        modified_upto(old_l, bv, hv, i),
        is_last_of_id(bv, i),
        nodes_by_id(hv).dom().contains(bv[i].id),
        node_changes(bv[i], nodes_by_id(hv)[bv[i].id]).len() > 0,
        xv == modified_item_of(bv[i], nodes_by_id(hv)[bv[i].id]),
        xv.node_id == bv[i].id,
        sorted_by_key::<ModifiedItem>(new_l),
        forall|e: ModifiedItemView| new_l.contains(e) <==> (old_l.contains(e) || e == xv),
    ensures
        modified_upto(new_l, bv, hv, i + 1),
{
    let bm = nodes_by_id(bv);
    let hm = nodes_by_id(hv);
    lemma_by_id_last(bv, i);
    assert forall|a: int| 0 <= a < new_l.len() implies {
        &&& bm.dom().contains(new_l[a].node_id)
        &&& hm.dom().contains(new_l[a].node_id)
        &&& node_changes(bm[new_l[a].node_id], hm[new_l[a].node_id]).len() > 0
        &&& new_l[a] == modified_item_of(bm[new_l[a].node_id], hm[new_l[a].node_id])
        &&& exists|j: int| 0 <= j < i + 1 && is_last_of_id(bv, j) && bv[j].id == new_l[a].node_id
    } by {
        assert(new_l.contains(new_l[a]));
        if new_l[a] == xv {
            assert(is_last_of_id(bv, i) && bv[i].id == new_l[a].node_id);
        } else {
            let b = choose|b: int| 0 <= b < old_l.len() && old_l[b] == new_l[a];
            let j = choose|j: int| 0 <= j < i && is_last_of_id(bv, j) && bv[j].id == old_l[b].node_id;
            assert(is_last_of_id(bv, j) && bv[j].id == new_l[a].node_id);
        }
    }
    assert forall|j: int|
        0 <= j < i + 1 && is_last_of_id(bv, j) && hm.dom().contains(bv[j].id) && node_changes(
            bm[bv[j].id],
            hm[bv[j].id],
        ).len() > 0 implies exists|a: int| 0 <= a < new_l.len() && new_l[a].node_id == bv[j].id by {
        if j == i {
            assert(new_l.contains(xv));
        } else {
            let b = choose|b: int| 0 <= b < old_l.len() && old_l[b].node_id == bv[j].id;
            assert(old_l.contains(old_l[b]));
            assert(new_l.contains(old_l[b]));
        }
    }
}

proof fn lemma_modified_skip(l: Seq<ModifiedItemView>, bv: Seq<NodeView>, hv: Seq<NodeView>, i: int)
    requires
        modified_upto(l, bv, hv, i),
        0 <= i < bv.len(),
        !(is_last_of_id(bv, i) && nodes_by_id(hv).dom().contains(bv[i].id) && node_changes(
            nodes_by_id(bv)[bv[i].id],
            nodes_by_id(hv)[bv[i].id],
        ).len() > 0),
    ensures
        modified_upto(l, bv, hv, i + 1),
{
    assert forall|a: int| #![trigger l[a]] 0 <= a < l.len() implies exists|j: int|
        0 <= j < i + 1 && is_last_of_id(bv, j) && bv[j].id == l[a].node_id by {
        let j = choose|j: int| 0 <= j < i && is_last_of_id(bv, j) && bv[j].id == l[a].node_id;
    }
}

/// Handles base node `i` for the list of modified nodes.
fn note_modified(list: &mut Vec<ModifiedItem>, base: &Vec<Node>, head: &Vec<Node>, i: usize)
    requires
        i < base@.len(),
        modified_upto(views_of(old(list)@), base.deep_view(), head.deep_view(), i as int),
    ensures
        modified_upto(views_of(final(list)@), base.deep_view(), head.deep_view(), i + 1),
{
    let ghost bv = base.deep_view();
    let ghost hv = head.deep_view();
    let ghost old_l = views_of(list@);
    let node = &base[i];
    assert(bv[i as int] == node@);
    let is_last = match last_index_of(base, &node.id) {
        Some(j) => j == i,
        None => false,
    };
    proof {
        if is_last_of_id(bv, i as int) {
            let j = choose|j: int| i < j < bv.len() && bv[j].id == node@.id;
        }
        lemma_by_id_dom(hv, node@.id);
    }
    if is_last {
        proof {
            lemma_by_id_last(bv, i as int);
        }
        match last_index_of(head, &node.id) {
            Some(hj) => {
                assert(hv[hj as int] == head@[hj as int]@);
                proof {
                    lemma_by_id_last(hv, hj as int);
                }
                match compute_node_changes(node, &head[hj]) {
                    Some(item) => {
                        proof {
                            lemma_modified_fresh(old_l, bv, hv, i as int);
                            assert forall|a: int| 0 <= a < list@.len() implies ModifiedItem::key_of(
                                list@[a]@,
                            ) != ModifiedItem::key_of(item@) by {
                                assert(old_l[a] == list@[a]@);
                            }
                        }
                        let ghost xv = item@;
                        insert_sorted(list, item);
                        proof {
                            lemma_modified_insert(old_l, views_of(list@), bv, hv, i as int, xv);
                        }
                        return;
                    },
                    None => {},
                }
            },
            None => {},
        }
    }
    proof {
        lemma_modified_skip(old_l, bv, hv, i as int);
    }
}

/// The nodes present in both graphs whose entries changed, sorted by id.
fn collect_modified(base: &Vec<Node>, head: &Vec<Node>) -> (list: Vec<ModifiedItem>)
    ensures
        modified_exactly(
            list.deep_view(),
            nodes_by_id(base.deep_view()),
            nodes_by_id(head.deep_view()),
        ),
{
    let ghost bv = base.deep_view();
    let ghost hv = head.deep_view();
    let mut list: Vec<ModifiedItem> = Vec::new();
    for i in 0..base.len()
        invariant
            bv == base.deep_view(),
            hv == head.deep_view(),
            modified_upto(views_of(list@), bv, hv, i as int),
    {
        note_modified(&mut list, base, head, i);
    }
    proof {
        let bm = nodes_by_id(bv);
        let hm = nodes_by_id(hv);
        assert forall|k: Seq<char>|
            bm.dom().contains(k) && hm.dom().contains(k) && node_changes(bm[k], hm[k]).len() > 0
                implies exists|a: int| 0 <= a < list@.len() && views_of(list@)[a].node_id == k by {
            lemma_by_id_has_last(bv, k);
            let j = choose|j: int| is_last_of_id(bv, j) && bv[j].id == k;
        }
        lemma_deep_view_is_views(list);
    }
    list
}

impl DiffReport {
    /// The differences from `base` to `head`.
    #[must_use]
    pub fn compute(base: &GraphModel, head: &GraphModel) -> (r: Self)
        ensures
            is_diff_of(r@, base@.nodes, head@.nodes),
    {
        let added = collect_diff_items(&head.nodes, &base.nodes);
        let removed = collect_diff_items(&base.nodes, &head.nodes);
        let modified = collect_modified(&base.nodes, &head.nodes);
        DiffReport { added, removed, modified }
    }

    /// Whether anything was added, removed or modified.
    #[must_use]
    pub fn has_changes(&self) -> (r: bool)
        ensures
            r == report_has_changes(self@),
    {
        !self.added.is_empty() || !self.removed.is_empty() || self.modified.len() != 0
    }
}

proof fn lemma_new_entries_covered<T: DiffEntry>(from: Seq<<T as View>::V>, other: Seq<<T as View>::V>)
    requires
        forall|i: int| 0 <= i < from.len() ==> names_of::<T>(other).contains(T::entry_name(from[i])),
    ensures
        new_entries::<T>(from, other).len() == 0,
    decreases from.len(),
{
    if from.len() > 0 {
        let p = from.drop_last();
        assert forall|i: int| 0 <= i < p.len() implies names_of::<T>(other).contains(T::entry_name(p[i])) by {
            assert(p[i] == from[i]);
        }
        lemma_new_entries_covered::<T>(p, other);
        assert(names_of::<T>(other).contains(T::entry_name(from[from.len() - 1])));
    }
}

proof fn lemma_entry_changes_same<T: DiffEntry>(s: Seq<<T as View>::V>)
    ensures
        entry_changes::<T>(s, s).len() == 0,
{
    assert forall|i: int| 0 <= i < s.len() implies names_of::<T>(s).contains(T::entry_name(s[i])) by {
        assert(names_of::<T>(s)[i] == T::entry_name(s[i]));
    }
    lemma_new_entries_covered::<T>(s, s);
}

/// A node compared with itself has no changes.
pub proof fn lemma_node_changes_same(n: NodeView)
    ensures
        node_changes(n, n).len() == 0,
{
    match n.details {
        NodeDetailsView::Service { methods, .. } => lemma_entry_changes_same::<MethodSignature>(methods),
        NodeDetailsView::Message { fields } => lemma_entry_changes_same::<FieldInfo>(fields),
        NodeDetailsView::Enum { values } => lemma_entry_changes_same::<EnumValue>(values),
        NodeDetailsView::External => {},
    }
}

/// Comparing a graph with itself reports no change.
pub proof fn lemma_diff_with_itself_is_empty(r: DiffReportView, nodes: Seq<NodeView>)
    requires
        is_diff_of(r, nodes, nodes),
    ensures
        !report_has_changes(r),
{
    let m = nodes_by_id(nodes);
    let none = m.dom().difference(m.dom());
    assert forall|l: Seq<DiffNodeView>, t: NodeType| lists_exactly(l, none, m, t) implies l.len() == 0 by {
        if l.len() > 0 {
            assert(none.contains(l[0].id));
        }
    }
    assert(r.added.services.len() == 0);
    assert(r.added.messages.len() == 0);
    assert(r.added.enums.len() == 0);
    assert(r.removed.services.len() == 0);
    assert(r.removed.messages.len() == 0);
    assert(r.removed.enums.len() == 0);
    if r.modified.len() > 0 {
        lemma_node_changes_same(m[r.modified[0].node_id]);
    }
}

proof fn lemma_lists_exactly_unique(
    l1: Seq<DiffNodeView>,
    l2: Seq<DiffNodeView>,
    ids: Set<Seq<char>>,
    m: Map<Seq<char>, NodeView>,
    t: NodeType,
)
    requires
        lists_exactly(l1, ids, m, t),
        lists_exactly(l2, ids, m, t),
    ensures
        l1 == l2,
{
    let k1 = l1.map_values(|n: DiffNodeView| n.id);
    let k2 = l2.map_values(|n: DiffNodeView| n.id);
    assert forall|e: Seq<char>| k1.contains(e) <==> k2.contains(e) by {
        if k1.contains(e) {
            let a = choose|a: int| 0 <= a < k1.len() && k1[a] == e;
            assert(l1[a].id == e);
            let b = choose|b: int| 0 <= b < l2.len() && l2[b].id == e;
            assert(k2[b] == e);
        }
        if k2.contains(e) {
            let a = choose|a: int| 0 <= a < k2.len() && k2[a] == e;
            assert(l2[a].id == e);
            let b = choose|b: int| 0 <= b < l1.len() && l1[b].id == e;
            assert(k1[b] == e);
        }
    }
    assert(strictly_sorted(k1)) by {
        assert forall|i: int, j: int| 0 <= i < j < k1.len() implies seq_less(k1[i], k1[j]) by {
            assert(DiffNode::key_of(l1[i]) == k1[i]);
            assert(DiffNode::key_of(l1[j]) == k1[j]);
        }
    }
    assert(strictly_sorted(k2)) by {
        assert forall|i: int, j: int| 0 <= i < j < k2.len() implies seq_less(k2[i], k2[j]) by {
            assert(DiffNode::key_of(l2[i]) == k2[i]);
            assert(DiffNode::key_of(l2[j]) == k2[j]);
        }
    }
    lemma_strictly_sorted_unique(k1, k2);
    assert forall|i: int| 0 <= i < l1.len() implies l1[i] == l2[i] by {
        assert(k1[i] == k2[i]);
    }
    assert(l1 =~= l2);
}

/// What a diff from `a` to `b` reports as added, the diff from `b` to `a`
/// reports as removed, and the other way round.
pub proof fn lemma_diff_reversed(r1: DiffReportView, r2: DiffReportView, a: Seq<NodeView>, b: Seq<NodeView>)
    requires
        is_diff_of(r1, a, b),
        is_diff_of(r2, b, a),
    ensures
        r1.added == r2.removed,
        r1.removed == r2.added,
{
    let am = nodes_by_id(a);
    let bm = nodes_by_id(b);
    let only_b = bm.dom().difference(am.dom());
    let only_a = am.dom().difference(bm.dom());
    lemma_lists_exactly_unique(r1.added.services, r2.removed.services, only_b, bm, NodeType::Service);
    lemma_lists_exactly_unique(r1.added.messages, r2.removed.messages, only_b, bm, NodeType::Message);
    lemma_lists_exactly_unique(r1.added.enums, r2.removed.enums, only_b, bm, NodeType::Enum);
    lemma_lists_exactly_unique(r1.removed.services, r2.added.services, only_a, am, NodeType::Service);
    lemma_lists_exactly_unique(r1.removed.messages, r2.added.messages, only_a, am, NodeType::Message);
    lemma_lists_exactly_unique(r1.removed.enums, r2.added.enums, only_a, am, NodeType::Enum);
}

/// Strictly increasing texts.
pub open spec fn strictly_sorted(s: Seq<Seq<char>>) -> bool {
    forall|i: int, j: int| 0 <= i < j < s.len() ==> seq_less(s[i], s[j])
}

/// Two strictly increasing sequences of texts with the same members are equal.
pub proof fn lemma_strictly_sorted_unique(l1: Seq<Seq<char>>, l2: Seq<Seq<char>>)
    requires
        strictly_sorted(l1),
        strictly_sorted(l2),
        forall|e: Seq<char>| l1.contains(e) <==> l2.contains(e),
    ensures
        l1 == l2,
    decreases l1.len(),
{
    if l1.len() == 0 {
        if l2.len() > 0 {
            assert(l2.contains(l2[0]));
        }
        assert(l1 =~= l2);
    } else if l2.len() == 0 {
        assert(l1.contains(l1[0]));
    } else {
        assert(l1.contains(l1[0]));
        assert(l2.contains(l2[0]));
        let j = choose|j: int| 0 <= j < l2.len() && l2[j] == l1[0];
        let i = choose|i: int| 0 <= i < l1.len() && l1[i] == l2[0];
        if j > 0 && i > 0 {
            lemma_seq_less_asymmetric(l2[0], l1[0]);
        }
        if j != 0 {
            assert(i == 0);
        }
        let t1 = l1.drop_first();
        let t2 = l2.drop_first();
        assert forall|e: Seq<char>| t1.contains(e) <==> t2.contains(e) by {
            if t1.contains(e) {
                let a = choose|a: int| 0 <= a < t1.len() && t1[a] == e;
                assert(l1[a + 1] == e);
                lemma_seq_less_irreflexive(l1[0]);
                assert(l2.contains(e));
                let b = choose|b: int| 0 <= b < l2.len() && l2[b] == e;
                if b == 0 {
                    assert(seq_less(l1[0], l1[a + 1]));
                }
                assert(t2[b - 1] == e);
            }
            if t2.contains(e) {
                let a = choose|a: int| 0 <= a < t2.len() && t2[a] == e;
                assert(l2[a + 1] == e);
                lemma_seq_less_irreflexive(l2[0]);
                assert(l1.contains(e));
                let b = choose|b: int| 0 <= b < l1.len() && l1[b] == e;
                if b == 0 {
                    assert(seq_less(l2[0], l2[a + 1]));
                }
                assert(t1[b - 1] == e);
            }
        }
        lemma_strictly_sorted_unique(t1, t2);
        assert(l1.len() == l2.len());
        assert forall|k: int| 0 <= k < l1.len() implies l1[k] == l2[k] by {
            if k > 0 {
                assert(l1[k] == t1[k - 1]);
                assert(l2[k] == t2[k - 1]);
            }
        }
        assert(l1 =~= l2);
    }
}

proof fn lemma_entry_changes_len_symmetric<T: DiffEntry>(a: Seq<<T as View>::V>, b: Seq<<T as View>::V>)
    ensures
        entry_changes::<T>(a, b).len() == entry_changes::<T>(b, a).len(),
{
}

/// A node has as many changes from `x` to `y` as from `y` to `x`.
pub proof fn lemma_node_changes_len_symmetric(x: NodeView, y: NodeView)
    ensures
        node_changes(x, y).len() == node_changes(y, x).len(),
{
    match (x.details, y.details) {
        (NodeDetailsView::Service { methods: m1, .. }, NodeDetailsView::Service { methods: m2, .. }) => {
            lemma_entry_changes_len_symmetric::<MethodSignature>(m1, m2);
        },
        (NodeDetailsView::Message { fields: f1 }, NodeDetailsView::Message { fields: f2 }) => {
            lemma_entry_changes_len_symmetric::<FieldInfo>(f1, f2);
        },
        (NodeDetailsView::Enum { values: v1 }, NodeDetailsView::Enum { values: v2 }) => {
            lemma_entry_changes_len_symmetric::<EnumValue>(v1, v2);
        },
        _ => {},
    }
}

/// The ids of the modified nodes, in order.
pub open spec fn modified_ids(ms: Seq<ModifiedItemView>) -> Seq<Seq<char>> {
    ms.map_values(|m: ModifiedItemView| m.node_id)
}

/// The diff from `a` to `b` and the diff from `b` to `a` list the same
/// modified nodes, in the same order.
pub proof fn lemma_diff_reversed_modified(
    r1: DiffReportView,
    r2: DiffReportView,
    a: Seq<NodeView>,
    b: Seq<NodeView>,
)
    requires
        is_diff_of(r1, a, b),
        is_diff_of(r2, b, a),
    ensures
        modified_ids(r1.modified) == modified_ids(r2.modified),
{
    let am = nodes_by_id(a);
    let bm = nodes_by_id(b);
    let k1 = modified_ids(r1.modified);
    let k2 = modified_ids(r2.modified);
    assert forall|e: Seq<char>| k1.contains(e) <==> k2.contains(e) by {
        if k1.contains(e) {
            let i = choose|i: int| 0 <= i < k1.len() && k1[i] == e;
            assert(r1.modified[i].node_id == e);
            lemma_node_changes_len_symmetric(am[e], bm[e]);
            let j = choose|j: int| 0 <= j < r2.modified.len() && r2.modified[j].node_id == e;
            assert(k2[j] == e);
        }
        if k2.contains(e) {
            let i = choose|i: int| 0 <= i < k2.len() && k2[i] == e;
            assert(r2.modified[i].node_id == e);
            lemma_node_changes_len_symmetric(bm[e], am[e]);
            let j = choose|j: int| 0 <= j < r1.modified.len() && r1.modified[j].node_id == e;
            assert(k1[j] == e);
        }
    }
    assert(strictly_sorted(k1)) by {
        assert forall|i: int, j: int| 0 <= i < j < k1.len() implies seq_less(k1[i], k1[j]) by {
            assert(ModifiedItem::key_of(r1.modified[i]) == k1[i]);
            assert(ModifiedItem::key_of(r1.modified[j]) == k1[j]);
        }
    }
    assert(strictly_sorted(k2)) by {
        assert forall|i: int, j: int| 0 <= i < j < k2.len() implies seq_less(k2[i], k2[j]) by {
            assert(ModifiedItem::key_of(r2.modified[i]) == k2[i]);
            assert(ModifiedItem::key_of(r2.modified[j]) == k2[j]);
        }
    }
    lemma_strictly_sorted_unique(k1, k2);
}

/// The same change seen from the other side: an added entry becomes a
/// removed one, and a removed one an added one.
pub open spec fn reversed_change(c: ChangeView) -> ChangeView {
    match c {
        ChangeView::FieldAdded { field } => ChangeView::FieldRemoved { field },
        ChangeView::FieldRemoved { field } => ChangeView::FieldAdded { field },
        ChangeView::MethodAdded { method } => ChangeView::MethodRemoved { method },
        ChangeView::MethodRemoved { method } => ChangeView::MethodAdded { method },
        ChangeView::EnumValueAdded { value } => ChangeView::EnumValueRemoved { value },
        ChangeView::EnumValueRemoved { value } => ChangeView::EnumValueAdded { value },
    }
}

proof fn lemma_entry_changes_reversed<T: DiffEntry>(a: Seq<<T as View>::V>, b: Seq<<T as View>::V>)
    requires
        forall|v: <T as View>::V| reversed_change(#[trigger] T::added_change(v)) == T::removed_change(v),
        forall|v: <T as View>::V| reversed_change(#[trigger] T::removed_change(v)) == T::added_change(v),
    ensures
        entry_changes::<T>(a, b).map_values(|c: ChangeView| reversed_change(c)).to_multiset()
            == entry_changes::<T>(b, a).to_multiset(),
{
    broadcast use vstd::multiset::group_multiset_axioms;

    let p = new_entries::<T>(b, a);
    let q = new_entries::<T>(a, b);
    let pr = p.map_values(|v: <T as View>::V| T::removed_change(v));
    let qa = q.map_values(|v: <T as View>::V| T::added_change(v));
    assert(entry_changes::<T>(a, b).map_values(|c: ChangeView| reversed_change(c)) =~= pr + qa);
    assert(entry_changes::<T>(b, a) =~= qa + pr);
    vstd::seq_lib::lemma_multiset_commutative(pr, qa);
    vstd::seq_lib::lemma_multiset_commutative(qa, pr);
    assert(pr.to_multiset().add(qa.to_multiset()) =~= qa.to_multiset().add(pr.to_multiset()));
}

/// The changes of a node from `y` to `x` are those from `x` to `y` with
/// added and removed swapped, compared as multisets.
pub proof fn lemma_node_changes_reversed(x: NodeView, y: NodeView)
    ensures
        node_changes(x, y).map_values(|c: ChangeView| reversed_change(c)).to_multiset()
            == node_changes(y, x).to_multiset(),
{
    match (x.details, y.details) {
        (NodeDetailsView::Service { methods: m1, .. }, NodeDetailsView::Service { methods: m2, .. }) => {
            lemma_entry_changes_reversed::<MethodSignature>(m1, m2);
        },
        (NodeDetailsView::Message { fields: f1 }, NodeDetailsView::Message { fields: f2 }) => {
            lemma_entry_changes_reversed::<FieldInfo>(f1, f2);
        },
        (NodeDetailsView::Enum { values: v1 }, NodeDetailsView::Enum { values: v2 }) => {
            lemma_entry_changes_reversed::<EnumValue>(v1, v2);
        },
        _ => {
            assert(node_changes(x, y).map_values(|c: ChangeView| reversed_change(c)) =~= Seq::<
                ChangeView,
            >::empty());
            assert(node_changes(y, x) =~= Seq::<ChangeView>::empty());
        },
    }
}

/// Comparing the other way round lists the same modified nodes, and the
/// changes of each are the same with added and removed swapped (as
/// multisets: within each kind the order follows the entries).
pub proof fn lemma_diff_reversed_changes(
    r1: DiffReportView,
    r2: DiffReportView,
    a: Seq<NodeView>,
    b: Seq<NodeView>,
)
    requires
        is_diff_of(r1, a, b),
        is_diff_of(r2, b, a),
    ensures
        r1.modified.len() == r2.modified.len(),
        forall|i: int|
            0 <= i < r1.modified.len() ==> {
                &&& r1.modified[i].node_id == r2.modified[i].node_id
                &&& (#[trigger] r1.modified[i]).changes.map_values(|c: ChangeView| reversed_change(c)).to_multiset()
                    == r2.modified[i].changes.to_multiset()
            },
{
    lemma_diff_reversed_modified(r1, r2, a, b);
    let am = nodes_by_id(a);
    let bm = nodes_by_id(b);
    assert(modified_ids(r1.modified).len() == r1.modified.len());
    assert(modified_ids(r2.modified).len() == r2.modified.len());
    assert forall|i: int| 0 <= i < r1.modified.len() implies {
        &&& r1.modified[i].node_id == r2.modified[i].node_id
        &&& (#[trigger] r1.modified[i]).changes.map_values(|c: ChangeView| reversed_change(c)).to_multiset()
            == r2.modified[i].changes.to_multiset()
    } by {
        assert(modified_ids(r1.modified)[i] == modified_ids(r2.modified)[i]);
        let id = r1.modified[i].node_id;
        lemma_node_changes_reversed(am[id], bm[id]);
    }
}

/// A diff reports changes exactly when some service, message or enum id is
/// only in the head graph (added) or only in the base graph (removed), or
/// some id in both has a node whose entries changed.
pub proof fn lemma_has_changes_iff(r: DiffReportView, base: Seq<NodeView>, head: Seq<NodeView>)
    requires
        is_diff_of(r, base, head),
    ensures
        report_has_changes(r) <==> {
            let bm = nodes_by_id(base);
            let hm = nodes_by_id(head);
            ||| exists|k: Seq<char>|
                hm.dom().contains(k) && !bm.dom().contains(k) && hm[k].node_type != NodeType::External
            ||| exists|k: Seq<char>|
                bm.dom().contains(k) && !hm.dom().contains(k) && bm[k].node_type != NodeType::External
            ||| exists|k: Seq<char>|
                bm.dom().contains(k) && hm.dom().contains(k) && node_changes(bm[k], hm[k]).len() > 0
        },
{
    let bm = nodes_by_id(base);
    let hm = nodes_by_id(head);
    let added = hm.dom().difference(bm.dom());
    let removed = bm.dom().difference(hm.dom());
    lemma_items_nonempty(r.added, added, hm);
    lemma_items_nonempty(r.removed, removed, bm);
    if exists|k: Seq<char>| added.contains(k) && hm.dom().contains(k) && hm[k].node_type != NodeType::External {
        let k = choose|k: Seq<char>|
            added.contains(k) && hm.dom().contains(k) && hm[k].node_type != NodeType::External;
        assert(hm.dom().contains(k) && !bm.dom().contains(k) && hm[k].node_type != NodeType::External);
    }
    if exists|k: Seq<char>| hm.dom().contains(k) && !bm.dom().contains(k) && hm[k].node_type != NodeType::External {
        let k = choose|k: Seq<char>|
            hm.dom().contains(k) && !bm.dom().contains(k) && hm[k].node_type != NodeType::External;
        assert(added.contains(k) && hm.dom().contains(k) && hm[k].node_type != NodeType::External);
    }
    if exists|k: Seq<char>| removed.contains(k) && bm.dom().contains(k) && bm[k].node_type != NodeType::External {
        let k = choose|k: Seq<char>|
            removed.contains(k) && bm.dom().contains(k) && bm[k].node_type != NodeType::External;
        assert(bm.dom().contains(k) && !hm.dom().contains(k) && bm[k].node_type != NodeType::External);
    }
    if exists|k: Seq<char>| bm.dom().contains(k) && !hm.dom().contains(k) && bm[k].node_type != NodeType::External {
        let k = choose|k: Seq<char>|
            bm.dom().contains(k) && !hm.dom().contains(k) && bm[k].node_type != NodeType::External;
        assert(removed.contains(k) && bm.dom().contains(k) && bm[k].node_type != NodeType::External);
    }
    if r.modified.len() != 0 {
        let k = r.modified[0].node_id;
        assert(bm.dom().contains(k) && hm.dom().contains(k) && node_changes(bm[k], hm[k]).len() > 0);
    }
    if exists|k: Seq<char>|
        bm.dom().contains(k) && hm.dom().contains(k) && node_changes(bm[k], hm[k]).len() > 0 {
        let k = choose|k: Seq<char>|
            bm.dom().contains(k) && hm.dom().contains(k) && node_changes(bm[k], hm[k]).len() > 0;
        let i = choose|i: int| 0 <= i < r.modified.len() && r.modified[i].node_id == k;
        assert(r.modified.len() > 0);
    }
}

/// The lists of `items` are not all empty exactly when `ids` holds the id of
/// a service, message or enum of `m`.
proof fn lemma_items_nonempty(items: DiffItemsView, ids: Set<Seq<char>>, m: Map<Seq<char>, NodeView>)
    requires
        items_exactly(items, ids, m),
    ensures
        items_count(items) != 0 <==> exists|k: Seq<char>|
            ids.contains(k) && m.dom().contains(k) && m[k].node_type != NodeType::External,
{
    if items.services.len() != 0 {
        let k = items.services[0].id;
        assert(ids.contains(k) && m.dom().contains(k) && m[k].node_type != NodeType::External);
    }
    if items.messages.len() != 0 {
        let k = items.messages[0].id;
        assert(ids.contains(k) && m.dom().contains(k) && m[k].node_type != NodeType::External);
    }
    if items.enums.len() != 0 {
        let k = items.enums[0].id;
        assert(ids.contains(k) && m.dom().contains(k) && m[k].node_type != NodeType::External);
    }
    if exists|k: Seq<char>| ids.contains(k) && m.dom().contains(k) && m[k].node_type != NodeType::External {
        let k = choose|k: Seq<char>|
            ids.contains(k) && m.dom().contains(k) && m[k].node_type != NodeType::External;
        match m[k].node_type {
            NodeType::Service => {
                let i = choose|i: int| 0 <= i < items.services.len() && items.services[i].id == k;
            },
            NodeType::Message => {
                let i = choose|i: int| 0 <= i < items.messages.len() && items.messages[i].id == k;
            },
            NodeType::Enum => {
                let i = choose|i: int| 0 <= i < items.enums.len() && items.enums[i].id == k;
            },
            NodeType::External => {},
        }
    }
}

} // verus!
