//! Naming rules and small conversions of the analyzer, and the grouping of
//! nodes into packages.
use vstd::prelude::*;
use vstd::string::*;

use prost_types::field_descriptor_proto::{Label, Type};

use crate::domain::{Node, NodeView, Package, PackageView};
use crate::text::{
    after_last_dot, copy_string, has_prefix, last_segment, starts_with,
};

verus! {

/// A file path that belongs to an external dependency (`google/…`, `buf/…`).
pub open spec fn is_external_path(path: Seq<char>) -> bool {
    has_prefix(path, "google/"@) || has_prefix(path, "buf/"@)
}

pub fn is_external_file(file_path: &String) -> (r: bool)
    ensures
        r == is_external_path(file_path@),
{
    starts_with(file_path, "google/") || starts_with(file_path, "buf/")
}

/// Node id of a definition: `{package}.{name}`, or `{name}` without a package.
pub open spec fn node_id_of(package: Seq<char>, name: Seq<char>) -> Seq<char> {
    if package.len() == 0 {
        name
    } else {
        package + "."@ + name
    }
}

pub fn generate_node_id(package: &String, name: &String) -> (r: String)
    ensures
        r@ == node_id_of(package@, name@),
{
    if package.as_str().unicode_len() == 0 {
        copy_string(name)
    } else {
        let mut s = copy_string(package);
        s.append(".");
        s.append(name.as_str());
        s
    }
}

/// Fully qualified type name of a definition: `.{package}.{name}`, or
/// `.{name}` without a package.
pub open spec fn fq_type_of(package: Seq<char>, name: Seq<char>) -> Seq<char> {
    if package.len() == 0 {
        "."@ + name
    } else {
        "."@ + package + "."@ + name
    }
}

/// The fully qualified type name of a definition is its node id behind a dot.
pub proof fn lemma_fq_type_is_dot_node_id(package: Seq<char>, name: Seq<char>)
    ensures
        fq_type_of(package, name) == "."@ + node_id_of(package, name),
{
    if package.len() != 0 {
        assert("."@ + package + "."@ + name =~= "."@ + (package + "."@ + name));
    }
}

pub fn generate_fq_type(package: &String, name: &String) -> (r: String)
    ensures
        r@ == fq_type_of(package@, name@),
{
    let mut s = String::from_str(".");
    if package.as_str().unicode_len() != 0 {
        s.append(package.as_str());
        s.append(".");
    }
    s.append(name.as_str());
    s
}

/// The short name of an optional fully qualified type (`.a.b.C` → `C`), or
/// the empty string when there is none.
pub open spec fn short_type_of(full: Option<Seq<char>>) -> Seq<char> {
    match full {
        Some(t) => after_last_dot(t),
        None => Seq::empty(),
    }
}

/// The short form of a type name is its last segment: what follows its last
/// dot, or the whole name without a dot.
pub proof fn lemma_short_type_is_last_segment(prefix: Seq<char>, name: Seq<char>)
    requires
        !name.contains('.'),
    ensures
        short_type_of(Some(prefix + "."@ + name)) == name,
        short_type_of(Some(name)) == name,
{
    reveal_strlit(".");
    let t = prefix + "."@ + name;
    let k = prefix.len() as int;
    assert(t[k] == '.');
    assert forall|j: int| k < j < t.len() implies t[j] != '.' by {
        assert(t[j] == name[j - k - 1]);
    }
    crate::text::lemma_last_dot(t, k);
    assert(t.skip(k + 1) =~= name);
    assert forall|j: int| 0 <= j < name.len() implies name[j] != '.' by {
        if name[j] == '.' {
            assert(name.contains('.'));
        }
    }
    crate::text::lemma_no_dot(name);
}

pub fn extract_short_type(full_type: Option<&String>) -> (r: String)
    ensures
        r@ == short_type_of(
            match full_type {
                Some(t) => Some(t@),
                None => None,
            },
        ),
{
    match full_type {
        Some(t) => last_segment(t),
        None => String::new(),
    }
}

/// `Label::try_from` of `prost_types`, as the code of the decoded label: the
/// codes 1, 2 and 3 (`Optional`, `Required`, `Repeated`) decode to
/// themselves; every other code is an error.
#[verifier::external_body]
fn decode_label(code: i32) -> (r: Option<i32>)
    ensures
        r == (if 1 <= code <= 3 {
            Some(code)
        } else {
            None
        }),
{
    Label::try_from(code).ok().map(i32::from)
}

/// The text of a field label; an absent or unknown code reads `optional`.
pub open spec fn label_text(label: Option<i32>) -> Seq<char> {
    match label {
        Some(code) => if code == 2 {
            "required"@
        } else if code == 3 {
            "repeated"@
        } else {
            "optional"@
        },
        None => "optional"@,
    }
}

pub fn label_to_string(label: Option<i32>) -> (r: String)
    ensures
        r@ == label_text(label),
{
    let decoded = match label {
        Some(code) => decode_label(code),
        None => None,
    };
    match decoded {
        Some(2) => String::from_str("required"),
        Some(3) => String::from_str("repeated"),
        _ => String::from_str("optional"),
    }
}

/// `Type::try_from` of `prost_types`, as the code of the decoded type: the
/// codes 1 to 18 (`Double` = 1 … `Sint64` = 18) decode to themselves; every
/// other code is an error.
#[verifier::external_body]
fn decode_type(code: i32) -> (r: Option<i32>)
    ensures
        r == (if 1 <= code <= 18 {
            Some(code)
        } else {
            None
        }),
{
    Type::try_from(code).ok().map(i32::from)
}

/// The protobuf name of the field type with code `code` (1 to 18).
pub open spec fn kind_text(code: i32) -> Seq<char> {
    if code == 1 {
        "double"@
    } else if code == 2 {
        "float"@
    } else if code == 3 {
        "int64"@
    } else if code == 4 {
        "uint64"@
    } else if code == 5 {
        "int32"@
    } else if code == 6 {
        "fixed64"@
    } else if code == 7 {
        "fixed32"@
    } else if code == 8 {
        "bool"@
    } else if code == 9 {
        "string"@
    } else if code == 10 {
        "group"@
    } else if code == 11 {
        "message"@
    } else if code == 12 {
        "bytes"@
    } else if code == 13 {
        "uint32"@
    } else if code == 14 {
        "enum"@
    } else if code == 15 {
        "sfixed32"@
    } else if code == 16 {
        "sfixed64"@
    } else if code == 17 {
        "sint32"@
    } else {
        "sint64"@
    }
}

fn kind_name(code: i32) -> (r: &'static str)
    ensures
        r@ == kind_text(code),
{
    if code == 1 {
        "double"
    } else if code == 2 {
        "float"
    } else if code == 3 {
        "int64"
    } else if code == 4 {
        "uint64"
    } else if code == 5 {
        "int32"
    } else if code == 6 {
        "fixed64"
    } else if code == 7 {
        "fixed32"
    } else if code == 8 {
        "bool"
    } else if code == 9 {
        "string"
    } else if code == 10 {
        "group"
    } else if code == 11 {
        "message"
    } else if code == 12 {
        "bytes"
    } else if code == 13 {
        "uint32"
    } else if code == 14 {
        "enum"
    } else if code == 15 {
        "sfixed32"
    } else if code == 16 {
        "sfixed64"
    } else if code == 17 {
        "sint32"
    } else {
        "sint64"
    }
}

/// The type shown for a field: the short name of the referenced type when
/// there is a non-empty one, else the name of its scalar type, else `unknown`.
pub open spec fn field_type_text(type_code: Option<i32>, type_ref: Option<Seq<char>>) -> Seq<char> {
    if type_ref is Some && type_ref->0.len() > 0 {
        after_last_dot(type_ref->0)
    } else {
        match type_code {
            Some(code) => if 1 <= code <= 18 {
                kind_text(code)
            } else {
                "unknown"@
            },
            None => "unknown"@,
        }
    }
}

pub fn type_to_string(type_code: Option<i32>, type_ref: Option<&String>) -> (r: String)
    ensures
        r@ == field_type_text(
            type_code,
            match type_ref {
                Some(t) => Some(t@),
                None => None,
            },
        ),
{
    if let Some(name) = type_ref {
        if name.as_str().unicode_len() != 0 {
            return last_segment(name);
        }
    }
    let decoded = match type_code {
        Some(code) => decode_type(code),
        None => None,
    };
    match decoded {
        Some(code) => String::from_str(kind_name(code)),
        None => String::from_str("unknown"),
    }
}

/// The packages after adding node `id` of package `p`: appended to the
/// package `p` where it is already listed, else a new package `p` at the end.
pub open spec fn add_to_packages(ps: Seq<PackageView>, p: Seq<char>, id: Seq<char>) -> Seq<
    PackageView,
> {
    if exists|k: int| 0 <= k < ps.len() && ps[k].id == p {
        let k = choose|k: int| 0 <= k < ps.len() && ps[k].id == p;
        ps.update(k, PackageView { id: p, node_ids: ps[k].node_ids.push(id) })
    } else {
        ps.push(PackageView { id: p, node_ids: seq![id] })
    }
}

/// The packages of `nodes`, in the order in which each first occurs; each
/// lists the ids of its nodes in node order.
pub open spec fn packages_of(nodes: Seq<NodeView>) -> Seq<PackageView>
    decreases nodes.len(),
{
    if nodes.len() == 0 {
        Seq::empty()
    } else {
        add_to_packages(packages_of(nodes.drop_last()), nodes.last().package, nodes.last().id)
    }
}

/// No two packages share an id.
pub open spec fn distinct_package_ids(ps: Seq<PackageView>) -> bool {
    forall|i: int, j: int| 0 <= i < ps.len() && 0 <= j < ps.len() && i != j ==> ps[i].id != ps[j].id
}

pub proof fn lemma_packages_distinct(nodes: Seq<NodeView>)
    ensures
        distinct_package_ids(packages_of(nodes)),
    decreases nodes.len(),
{
    if nodes.len() > 0 {
        lemma_packages_distinct(nodes.drop_last());
    }
}

/// The ids of the nodes of package `p`, in node order.
pub open spec fn package_members(nodes: Seq<NodeView>, p: Seq<char>) -> Seq<Seq<char>>
    decreases nodes.len(),
{
    if nodes.len() == 0 {
        Seq::empty()
    } else {
        let prev = package_members(nodes.drop_last(), p);
        if nodes.last().package == p {
            prev.push(nodes.last().id)
        } else {
            prev
        }
    }
}

/// The packages partition the nodes: distinct packages, each with exactly
/// its nodes' ids in order, and every node's package among them.
pub proof fn lemma_packages_partition(nodes: Seq<NodeView>)
    ensures
        distinct_package_ids(packages_of(nodes)),
        forall|k: int|
            0 <= k < packages_of(nodes).len() ==> packages_of(nodes)[k].node_ids == package_members(
                nodes,
                packages_of(nodes)[k].id,
            ),
        forall|i: int|
            #![trigger nodes[i]]
            0 <= i < nodes.len() ==> exists|k: int|
                0 <= k < packages_of(nodes).len() && packages_of(nodes)[k].id == nodes[i].package,
        forall|p: Seq<char>|
            (forall|k: int| 0 <= k < packages_of(nodes).len() ==> packages_of(nodes)[k].id != p)
                ==> package_members(nodes, p).len() == 0,
    decreases nodes.len(),
{
    lemma_packages_distinct(nodes);
    if nodes.len() > 0 {
        let prev_nodes = nodes.drop_last();
        let last = nodes.last();
        lemma_packages_partition(prev_nodes);
        let ps0 = packages_of(prev_nodes);
        let ps = packages_of(nodes);
        if exists|k: int| 0 <= k < ps0.len() && ps0[k].id == last.package {
            let k0 = choose|k: int| 0 <= k < ps0.len() && ps0[k].id == last.package;
            assert(ps == ps0.update(
                k0,
                PackageView { id: last.package, node_ids: ps0[k0].node_ids.push(last.id) },
            ));
            assert forall|k: int| 0 <= k < ps.len() implies ps[k].node_ids == package_members(nodes, ps[k].id) by {
                if k != k0 {
                    assert(ps0[k].id != ps0[k0].id);
                }
            }
            assert forall|i: int| #![trigger nodes[i]] 0 <= i < nodes.len() implies exists|k: int|
                0 <= k < ps.len() && ps[k].id == nodes[i].package by {
                if i < nodes.len() - 1 {
                    assert(nodes[i] == prev_nodes[i]);
                    let k = choose|k: int| 0 <= k < ps0.len() && ps0[k].id == prev_nodes[i].package;
                    assert(ps[k].id == nodes[i].package);
                } else {
                    assert(ps[k0].id == nodes[i].package);
                }
            }
            assert forall|p: Seq<char>|
                (forall|k: int| 0 <= k < ps.len() ==> ps[k].id != p) implies package_members(nodes, p).len()
                == 0 by {
                assert forall|k: int| 0 <= k < ps0.len() implies ps0[k].id != p by {
                    assert(ps[k].id == ps0[k].id);
                }
                assert(ps[k0].id != p);
                assert(package_members(prev_nodes, p).len() == 0);
            }
        } else {
            let n = ps0.len();
            assert(ps == ps0.push(PackageView { id: last.package, node_ids: seq![last.id] }));
            assert forall|k: int| 0 <= k < ps.len() implies ps[k].node_ids == package_members(nodes, ps[k].id) by {
                if k == n {
                    assert forall|k2: int| 0 <= k2 < ps0.len() implies ps0[k2].id != last.package by {}
                    assert(package_members(prev_nodes, last.package).len() == 0);
                    assert(package_members(nodes, last.package) =~= seq![last.id]);
                } else {
                    assert(ps0[k].id != last.package);
                }
            }
            assert forall|i: int| #![trigger nodes[i]] 0 <= i < nodes.len() implies exists|k: int|
                0 <= k < ps.len() && ps[k].id == nodes[i].package by {
                if i < nodes.len() - 1 {
                    assert(nodes[i] == prev_nodes[i]);
                    let k = choose|k: int| 0 <= k < ps0.len() && ps0[k].id == prev_nodes[i].package;
                    assert(ps[k].id == nodes[i].package);
                } else {
                    assert(ps[n as int].id == nodes[i].package);
                }
            }
            assert forall|p: Seq<char>|
                (forall|k: int| 0 <= k < ps.len() ==> ps[k].id != p) implies package_members(nodes, p).len()
                == 0 by {
                assert forall|k: int| 0 <= k < ps0.len() implies ps0[k].id != p by {
                    assert(ps[k].id == ps0[k].id);
                }
                assert(ps[n as int].id != p);
                assert(package_members(prev_nodes, p).len() == 0);
            }
        }
    }
}

/// Groups the nodes by package, packages in the order in which each first
/// occurs among the nodes, and within a package the nodes in their order.
pub fn group_packages(nodes: &Vec<Node>) -> (r: Vec<Package>)
    ensures
        r.deep_view() == packages_of(nodes.deep_view()),
{
    let mut packages: Vec<Package> = Vec::new();
    for i in 0..nodes.len()
        invariant
            packages.deep_view() == packages_of(nodes.deep_view().take(i as int)),
    {
        let node = &nodes[i];
        let ghost prefix = nodes.deep_view().take(i as int);
        proof {
            lemma_packages_distinct(prefix);
            assert(nodes.deep_view().take(i + 1).drop_last() =~= prefix);
        }
        let mut k: usize = 0;
        while k < packages.len() && !(packages[k].id == node.package)
            invariant
                packages.deep_view() == packages_of(prefix),
                distinct_package_ids(packages.deep_view()),
                k <= packages.len(),
                forall|j: int| 0 <= j < k ==> packages.deep_view()[j].id != node.package@,
            decreases packages.len() - k,
        {
            k = k + 1;
        }
        if k < packages.len() {
            let ghost before = packages.deep_view();
            let ghost raw = packages@;
            assert(before[k as int].id == node.package@);
            let mut p = packages.remove(k);
            let ghost old_ids = p.node_ids.deep_view();
            p.node_ids.push(copy_string(&node.id));
            assert(p.node_ids.deep_view() =~= old_ids.push(node.id@));
            let ghost pv = p@;
            packages.insert(k, p);
            proof {
                let k2 = choose|k2: int| 0 <= k2 < before.len() && before[k2].id == node.package@;
                assert(k2 == k);
                assert(packages@ =~= raw.remove(k as int).insert(k as int, packages@[k as int]));
                assert forall|j: int| 0 <= j < packages@.len() && j != k implies packages@[j] == raw[j] by {
                    if j < k {
                        assert(packages@[j] == raw.remove(k as int)[j]);
                    } else {
                        assert(packages@[j] == raw.remove(k as int)[j - 1]);
                    }
                }
                assert(packages.deep_view() =~= before.update(k as int, pv));
            }
        } else {
            let mut ids: Vec<String> = Vec::new();
            ids.push(copy_string(&node.id));
            assert(ids.deep_view() =~= seq![node.id@]);
            packages.push(Package::new(copy_string(&node.package), ids));
            assert(packages.deep_view() =~= packages_of(prefix).push(
                PackageView { id: node.package@, node_ids: seq![node.id@] },
            ));
        }
    }
    assert(nodes.deep_view().take(nodes.len() as int) =~= nodes.deep_view());
    packages
}

} // verus!
