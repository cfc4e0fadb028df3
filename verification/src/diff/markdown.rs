//! Markdown rendering of a diff report (for pull request comments).
use vstd::prelude::*;
use vstd::string::*;

use crate::domain::NodeType;
use crate::text::{chars_of, decimal, push_char, push_decimal};

use super::report::{
    items_count, report_has_changes, Change, ChangeView, DiffItems, DiffItemsView, DiffNodeView,
    DiffReport, DiffReportView, ModifiedItemView,
};

verus! {

/// The Markdown escape of one character of a table cell.
pub open spec fn escape_char(c: char) -> Seq<char> {
    if c == '|' {
        "\\|"@
    } else if c == '<' {
        "&lt;"@
    } else if c == '>' {
        "&gt;"@
    } else {
        seq![c]
    }
}

/// A table cell with `|`, `<` and `>` escaped.
pub open spec fn escape_cell(s: Seq<char>) -> Seq<char>
    decreases s.len(),
{
    if s.len() == 0 {
        Seq::empty()
    } else {
        escape_cell(s.drop_last()) + escape_char(s.last())
    }
}

/// The escape of one character holds no `<` or `>`, and each `|` in it
/// follows a backslash.
pub proof fn lemma_escape_char_safe(c: char)
    ensures
        !escape_char(c).contains('<'),
        !escape_char(c).contains('>'),
        forall|i: int|
            #![trigger escape_char(c)[i]]
            0 <= i < escape_char(c).len() && escape_char(c)[i] == '|' ==> i > 0 && escape_char(c)[i - 1]
                == '\\',
{
    reveal_strlit("\\|");
    reveal_strlit("&lt;");
    reveal_strlit("&gt;");
    let e = escape_char(c);
    if c == '|' {
        assert(e =~= seq!['\\', '|']);
    } else if c == '<' {
        assert(e =~= seq!['&', 'l', 't', ';']);
    } else if c == '>' {
        assert(e =~= seq!['&', 'g', 't', ';']);
    } else {
        assert(e =~= seq![c]);
    }
}

/// An escaped cell holds no `<` or `>`, and each `|` in it follows a
/// backslash, so it can neither open an HTML tag nor end a table cell.
pub proof fn lemma_escape_cell_safe(s: Seq<char>)
    ensures
        !escape_cell(s).contains('<'),
        !escape_cell(s).contains('>'),
        forall|i: int|
            #![trigger escape_cell(s)[i]]
            0 <= i < escape_cell(s).len() && escape_cell(s)[i] == '|' ==> i > 0 && escape_cell(s)[i - 1]
                == '\\',
    decreases s.len(),
{
    if s.len() > 0 {
        let p = escape_cell(s.drop_last());
        let q = escape_char(s.last());
        lemma_escape_cell_safe(s.drop_last());
        lemma_escape_char_safe(s.last());
        let e = escape_cell(s);
        assert(e == p + q);
        assert forall|i: int| #![trigger e[i]] 0 <= i < e.len() && e[i] == '|' implies i > 0 && e[i - 1] == '\\' by {
            if i >= p.len() {
                assert(q[i - p.len()] == '|');
            } else {
                assert(p[i] == '|');
            }
        }
        if e.contains('<') {
            let i = choose|i: int| 0 <= i < e.len() && e[i] == '<';
            if i < p.len() {
                assert(p[i] == '<');
            } else {
                assert(q[i - p.len()] == '<');
            }
        }
        if e.contains('>') {
            let i = choose|i: int| 0 <= i < e.len() && e[i] == '>';
            if i < p.len() {
                assert(p[i] == '>');
            } else {
                assert(q[i - p.len()] == '>');
            }
        }
    }
}

/// Escapes `|`, `<` and `>` in a table cell.
pub fn escape_markdown_cell(s: &String) -> (r: String)
    ensures
        r@ == escape_cell(s@),
{
    let cs = chars_of(s.as_str());
    let mut out = String::new();
    for i in 0..cs.len()
        invariant
            cs@ == s@,
            out@ == escape_cell(cs@.take(i as int)),
    {
        let c = cs[i];
        let ghost before = out@;
        if c == '|' {
            out.append("\\|");
        } else if c == '<' {
            out.append("&lt;");
        } else if c == '>' {
            out.append("&gt;");
        } else {
            push_char(&mut out, c);
            assert(out@ =~= before + seq![c]);
        }
        assert(cs@.take(i + 1).drop_last() =~= cs@.take(i as int));
    }
    assert(cs@.take(cs@.len() as int) =~= cs@);
    out
}

/// The name of a kind of node.
pub open spec fn node_type_text(t: NodeType) -> Seq<char> {
    match t {
        NodeType::Service => "Service"@,
        NodeType::Message => "Message"@,
        NodeType::Enum => "Enum"@,
        NodeType::External => "External"@,
    }
}

pub fn node_type_label(node_type: &NodeType) -> (r: &'static str)
    ensures
        r@ == node_type_text(*node_type),
{
    match node_type {
        NodeType::Service => "Service",
        NodeType::Message => "Message",
        NodeType::Enum => "Enum",
        NodeType::External => "External",
    }
}

/// One row of a table of added or removed nodes.
pub open spec fn diff_row(kind_name: Seq<char>, n: DiffNodeView) -> Seq<char> {
    "| "@ + kind_name + " | "@ + escape_cell(n.label) + " | "@ + escape_cell(n.package) + " |\n"@
}

/// The rows for `nodes`, all of kind `kind_name`.
pub open spec fn diff_rows(kind_name: Seq<char>, nodes: Seq<DiffNodeView>) -> Seq<char>
    decreases nodes.len(),
{
    if nodes.len() == 0 {
        Seq::empty()
    } else {
        diff_rows(kind_name, nodes.drop_last()) + diff_row(kind_name, nodes.last())
    }
}

/// The table of added or removed nodes: services, then messages, then enums.
pub open spec fn diff_table(items: DiffItemsView) -> Seq<char> {
    "| Type | Name | Package |\n"@ + "|------|------|--------|\n"@ + diff_rows("Service"@, items.services)
        + diff_rows("Message"@, items.messages) + diff_rows("Enum"@, items.enums) + "\n"@
}

fn render_rows(kind_name: &str, nodes: &Vec<super::report::DiffNode>, output: &mut String)
    ensures
        final(output)@ == old(output)@ + diff_rows(kind_name@, nodes.deep_view()),
{
    let ghost start = output@;
    for i in 0..nodes.len()
        invariant
            output@ == start + diff_rows(kind_name@, nodes.deep_view().take(i as int)),
    {
        let node = &nodes[i];
        let ghost before = output@;
        output.append("| ");
        output.append(kind_name);
        output.append(" | ");
        let label = escape_markdown_cell(&node.label);
        output.append(label.as_str());
        output.append(" | ");
        let package = escape_markdown_cell(&node.package);
        output.append(package.as_str());
        output.append(" |\n");
        assert(nodes.deep_view().take(i + 1).drop_last() =~= nodes.deep_view().take(i as int));
        assert(nodes.deep_view().take(i + 1).last() == node@);
        assert(output@ =~= before + diff_row(kind_name@, node@));
    }
    assert(nodes.deep_view().take(nodes.len() as int) =~= nodes.deep_view());
}

fn render_diff_table(items: &DiffItems, output: &mut String)
    ensures
        final(output)@ == old(output)@ + diff_table(items@),
{
    let ghost start = output@;
    output.append("| Type | Name | Package |\n");
    output.append("|------|------|--------|\n");
    render_rows("Service", &items.services, output);
    render_rows("Message", &items.messages, output);
    render_rows("Enum", &items.enums, output);
    output.append("\n");
    assert(output@ =~= start + diff_table(items@));
}

/// Which of the six kinds a change is.
pub open spec fn change_kind(c: ChangeView) -> int {
    match c {
        ChangeView::FieldAdded { .. } => 0,
        ChangeView::FieldRemoved { .. } => 1,
        ChangeView::MethodAdded { .. } => 2,
        ChangeView::MethodRemoved { .. } => 3,
        ChangeView::EnumValueAdded { .. } => 4,
        ChangeView::EnumValueRemoved { .. } => 5,
    }
}

/// The number of changes of kind `k`.
pub open spec fn count_kind(cs: Seq<ChangeView>, k: int) -> nat
    decreases cs.len(),
{
    if cs.len() == 0 {
        0
    } else {
        count_kind(cs.drop_last(), k) + (if change_kind(cs.last()) == k {
            1nat
        } else {
            0nat
        })
    }
}

proof fn lemma_count_kind_bound(cs: Seq<ChangeView>, k: int)
    ensures
        count_kind(cs, k) <= cs.len(),
    decreases cs.len(),
{
    if cs.len() > 0 {
        lemma_count_kind_bound(cs.drop_last(), k);
    }
}

/// `{sign}{n}{tail}` when `n` is positive; nothing otherwise.
pub open spec fn summary_part(sign: Seq<char>, n: nat, tail: Seq<char>) -> Seq<Seq<char>> {
    if n > 0 {
        seq![sign + decimal(n) + tail]
    } else {
        Seq::empty()
    }
}

/// The counted parts of a summary, in a fixed order of kinds.
pub open spec fn summary_parts(cs: Seq<ChangeView>) -> Seq<Seq<char>> {
    summary_part("+"@, count_kind(cs, 0), " field(s)"@) + summary_part("-"@, count_kind(cs, 1), " field(s)"@)
        + summary_part("+"@, count_kind(cs, 2), " method(s)"@) + summary_part(
        "-"@,
        count_kind(cs, 3),
        " method(s)"@,
    ) + summary_part("+"@, count_kind(cs, 4), " value(s)"@) + summary_part(
        "-"@,
        count_kind(cs, 5),
        " value(s)"@,
    )
}

/// `parts` joined by `sep`.
pub open spec fn join(parts: Seq<Seq<char>>, sep: Seq<char>) -> Seq<char>
    decreases parts.len(),
{
    if parts.len() == 0 {
        Seq::empty()
    } else if parts.len() == 1 {
        parts[0]
    } else {
        join(parts.drop_last(), sep) + sep + parts.last()
    }
}

/// The summary of a modified node's changes, such as `+1 field(s), -2 method(s)`.
pub open spec fn change_summary(cs: Seq<ChangeView>) -> Seq<char> {
    join(summary_parts(cs), ", "@)
}

fn count_changes(changes: &Vec<Change>, k: u8) -> (n: usize)
    requires
        k < 6,
    ensures
        n == count_kind(changes.deep_view(), k as int),
{
    let ghost cv = changes.deep_view();
    let mut n: usize = 0;
    for i in 0..changes.len()
        invariant
            cv == changes.deep_view(),
            k < 6,
            n == count_kind(cv.take(i as int), k as int),
    {
        proof {
            lemma_count_kind_bound(cv.take(i as int), k as int);
        }
        assert(cv.take(i + 1).drop_last() =~= cv.take(i as int));
        assert(cv.take(i + 1).last() == changes@[i as int]@);
        let kind: u8 = match &changes[i] {
            Change::FieldAdded { .. } => 0,
            Change::FieldRemoved { .. } => 1,
            Change::MethodAdded { .. } => 2,
            Change::MethodRemoved { .. } => 3,
            Change::EnumValueAdded { .. } => 4,
            Change::EnumValueRemoved { .. } => 5,
        };
        if kind == k {
            n = n + 1;
        }
    }
    assert(cv.take(cv.len() as int) =~= cv);
    n
}

/// Appends a part to a joined text: `sep` first unless it is the first.
fn push_part(
    out: &mut String,
    count: &mut usize,
    sign: &str,
    n: usize,
    tail: &str,
    Ghost(parts): Ghost<Seq<Seq<char>>>,
)
    requires
        old(out)@ == join(parts, ", "@),
        *old(count) == parts.len(),
        parts.len() < 6,
    ensures
        final(out)@ == join(parts + summary_part(sign@, n as nat, tail@), ", "@),
        *final(count) == (parts + summary_part(sign@, n as nat, tail@)).len(),
{
    if n > 0 {
        let ghost before = out@;
        if *count > 0 {
            out.append(", ");
        }
        out.append(sign);
        push_decimal(out, n as u64);
        out.append(tail);
        *count = *count + 1;
        proof {
            let p = sign@ + decimal(n as nat) + tail@;
            let all = parts + seq![p];
            assert(all.drop_last() =~= parts);
            if parts.len() == 0 {
                assert(out@ =~= p);
            } else {
                assert(out@ =~= before + ", "@ + p);
            }
        }
    } else {
        assert(parts + summary_part(sign@, n as nat, tail@) =~= parts);
    }
}

/// The summary of the changes of a modified node.
pub fn summarize_changes(changes: &Vec<Change>) -> (r: String)
    ensures
        r@ == change_summary(changes.deep_view()),
{
    let ghost cv = changes.deep_view();
    let mut out = String::new();
    let mut count: usize = 0;
    let fa = count_changes(changes, 0);
    let fr = count_changes(changes, 1);
    let ma = count_changes(changes, 2);
    let mr = count_changes(changes, 3);
    let va = count_changes(changes, 4);
    let vr = count_changes(changes, 5);
    let ghost p0 = Seq::<Seq<char>>::empty();
    push_part(&mut out, &mut count, "+", fa, " field(s)", Ghost(p0));
    let ghost p1 = p0 + summary_part("+"@, fa as nat, " field(s)"@);
    push_part(&mut out, &mut count, "-", fr, " field(s)", Ghost(p1));
    let ghost p2 = p1 + summary_part("-"@, fr as nat, " field(s)"@);
    push_part(&mut out, &mut count, "+", ma, " method(s)", Ghost(p2));
    let ghost p3 = p2 + summary_part("+"@, ma as nat, " method(s)"@);
    push_part(&mut out, &mut count, "-", mr, " method(s)", Ghost(p3));
    let ghost p4 = p3 + summary_part("-"@, mr as nat, " method(s)"@);
    push_part(&mut out, &mut count, "+", va, " value(s)", Ghost(p4));
    let ghost p5 = p4 + summary_part("+"@, va as nat, " value(s)"@);
    push_part(&mut out, &mut count, "-", vr, " value(s)", Ghost(p5));
    let ghost p6 = p5 + summary_part("-"@, vr as nat, " value(s)"@);
    assert(p6 =~= summary_parts(cv));
    out
}

/// One row of the table of modified nodes.
pub open spec fn modified_row(m: ModifiedItemView) -> Seq<char> {
    "| "@ + node_type_text(m.node_type) + " | "@ + escape_cell(m.label) + " | "@ + change_summary(m.changes)
        + " |\n"@
}

/// The rows for the modified nodes, in order.
pub open spec fn modified_rows(ms: Seq<ModifiedItemView>) -> Seq<char>
    decreases ms.len(),
{
    if ms.len() == 0 {
        Seq::empty()
    } else {
        modified_rows(ms.drop_last()) + modified_row(ms.last())
    }
}

/// The part for added or removed nodes: a heading with their number, then
/// their table; nothing when there are none.
pub open spec fn items_section(heading: Seq<char>, items: DiffItemsView) -> Seq<char> {
    if items_count(items) != 0 {
        heading + decimal(items_count(items)) + ")\n"@ + diff_table(items)
    } else {
        Seq::empty()
    }
}

/// The part for modified nodes: a heading with their number, then their
/// table; nothing when there are none.
pub open spec fn modified_section(ms: Seq<ModifiedItemView>) -> Seq<char> {
    if ms.len() != 0 {
        "#### ⚠️ Modified ("@ + decimal(ms.len()) + ")\n"@ + "| Type | Name | Changes |\n"@
            + "|------|------|--------|\n"@ + modified_rows(ms) + "\n"@
    } else {
        Seq::empty()
    }
}

/// The Markdown of a report: a note when nothing changed; else the added
/// nodes, the modified ones and the removed ones, each part only when it
/// lists something.
pub open spec fn diff_markdown(r: DiffReportView) -> Seq<char> {
    if !report_has_changes(r) {
        "### No Changes Detected\n\n"@
    } else {
        "### Changes from Base\n\n"@ + items_section("#### ✅ Added (+"@, r.added) + modified_section(
            r.modified,
        ) + items_section("#### ❌ Removed (-"@, r.removed)
    }
}

fn render_items_section(heading: &str, items: &DiffItems, output: &mut String)
    requires
        items_count(items@) <= usize::MAX,
    ensures
        final(output)@ == old(output)@ + items_section(heading@, items@),
{
    let ghost start = output@;
    if !items.is_empty() {
        output.append(heading);
        push_decimal(output, items.total_count() as u64);
        output.append(")\n");
        render_diff_table(items, output);
        assert(output@ =~= start + items_section(heading@, items@));
    } else {
        assert(output@ =~= start + items_section(heading@, items@));
    }
}

#[verifier::spinoff_prover]
fn render_modified_rows(modified: &Vec<super::report::ModifiedItem>, output: &mut String)
    ensures
        final(output)@ == old(output)@ + modified_rows(modified.deep_view()),
{
    let ghost t0 = output@;
    let ghost mv = modified.deep_view();
    for i in 0..modified.len()
        invariant
            mv == modified.deep_view(),
            output@ == t0 + modified_rows(mv.take(i as int)),
    {
        let item = &modified[i];
        let ghost before = output@;
        output.append("| ");
        output.append(node_type_label(&item.node_type));
        output.append(" | ");
        let label = escape_markdown_cell(&item.label);
        output.append(label.as_str());
        output.append(" | ");
        let summary = summarize_changes(&item.changes);
        output.append(summary.as_str());
        output.append(" |\n");
        assert(mv.take(i + 1).drop_last() =~= mv.take(i as int));
        assert(mv.take(i + 1).last() == item@);
        assert(output@ =~= before + modified_row(item@));
    }
    assert(mv.take(mv.len() as int) =~= mv);
}

fn render_modified_section(modified: &Vec<super::report::ModifiedItem>, output: &mut String)
    ensures
        final(output)@ == old(output)@ + modified_section(modified.deep_view()),
{
    let ghost start = output@;
    if modified.len() != 0 {
        output.append("#### ⚠️ Modified (");
        push_decimal(output, modified.len() as u64);
        output.append(")\n");
        output.append("| Type | Name | Changes |\n");
        output.append("|------|------|--------|\n");
        render_modified_rows(modified, output);
        output.append("\n");
    }
    assert(output@ =~= start + modified_section(modified.deep_view()));
}

impl DiffReport {
    /// The Markdown of the report.
    #[must_use]
    pub fn to_markdown(&self) -> (r: String)
        requires
            items_count(self@.added) <= usize::MAX,
            items_count(self@.removed) <= usize::MAX,
        ensures
            r@ == diff_markdown(self@),
    {
        if !self.has_changes() {
            return String::from_str("### No Changes Detected\n\n");
        }
        let mut output = String::from_str("### Changes from Base\n\n");
        let ghost s0 = output@;
        render_items_section("#### ✅ Added (+", &self.added, &mut output);
        render_modified_section(&self.modified, &mut output);
        render_items_section("#### ❌ Removed (-", &self.removed, &mut output);
        assert(output@ =~= diff_markdown(self@));
        output
    }
}

/// `p` occurs in `s` as a run of consecutive characters.
pub open spec fn occurs_in(p: Seq<char>, s: Seq<char>) -> bool {
    exists|i: int| 0 <= i && i + p.len() <= s.len() && #[trigger] s.subrange(i, i + p.len()) == p
}

proof fn lemma_occurs_self(p: Seq<char>)
    ensures
        occurs_in(p, p),
{
    let z: int = 0;
    assert(p.subrange(z, z + p.len()) =~= p);
}

proof fn lemma_occurs_left(p: Seq<char>, a: Seq<char>, b: Seq<char>)
    requires
        occurs_in(p, a),
    ensures
        occurs_in(p, a + b),
{
    let i = choose|i: int| 0 <= i && i + p.len() <= a.len() && #[trigger] a.subrange(i, i + p.len()) == p;
    assert((a + b).subrange(i, i + p.len()) =~= a.subrange(i, i + p.len()));
}

proof fn lemma_occurs_right(p: Seq<char>, a: Seq<char>, b: Seq<char>)
    requires
        occurs_in(p, b),
    ensures
        occurs_in(p, a + b),
{
    let i = choose|i: int| 0 <= i && i + p.len() <= b.len() && #[trigger] b.subrange(i, i + p.len()) == p;
    assert((a + b).subrange(a.len() + i, a.len() + i + p.len()) =~= b.subrange(i, i + p.len()));
}

proof fn lemma_join_contains(parts: Seq<Seq<char>>, sep: Seq<char>, i: int)
    requires
        0 <= i < parts.len(),
    ensures
        occurs_in(parts[i], join(parts, sep)),
    decreases parts.len(),
{
    if parts.len() == 1 {
        lemma_occurs_self(parts[0]);
    } else {
        let prev = parts.drop_last();
        if i == parts.len() - 1 {
            lemma_occurs_self(parts.last());
            lemma_occurs_right(parts.last(), join(prev, sep) + sep, parts.last());
        } else {
            lemma_join_contains(prev, sep, i);
            assert(prev[i] == parts[i]);
            lemma_occurs_left(parts[i], join(prev, sep), sep);
            lemma_occurs_left(parts[i], join(prev, sep) + sep, parts.last());
        }
    }
}

proof fn lemma_join_empty(parts: Seq<Seq<char>>, sep: Seq<char>)
    ensures
        parts.len() == 0 ==> join(parts, sep).len() == 0,
{
}

proof fn lemma_count_total(cs: Seq<ChangeView>)
    ensures
        count_kind(cs, 0) + count_kind(cs, 1) + count_kind(cs, 2) + count_kind(cs, 3) + count_kind(cs, 4)
            + count_kind(cs, 5) == cs.len(),
    decreases cs.len(),
{
    if cs.len() > 0 {
        lemma_count_total(cs.drop_last());
    }
}

proof fn lemma_count_kind_filter(cs: Seq<ChangeView>, k: int, pred: spec_fn(ChangeView) -> bool)
    requires
        forall|c: ChangeView| #[trigger] pred(c) <==> change_kind(c) == k,
    ensures
        count_kind(cs, k) == cs.filter(pred).len(),
    decreases cs.len(),
{
    reveal(Seq::filter);
    if cs.len() > 0 {
        lemma_count_kind_filter(cs.drop_last(), k, pred);
    }
}

/// The summary of a modified node's changes names, for each kind of change
/// that occurs `n` > 0 times, `+n` or `-n` and the kind (`field(s)`,
/// `method(s)`, `value(s)`); it is empty exactly when there is no change.
pub proof fn lemma_summary_names_each_kind(cs: Seq<ChangeView>)
    ensures
        cs.filter(|c: ChangeView| c is FieldAdded).len() > 0 ==> occurs_in(
            "+"@ + decimal(cs.filter(|c: ChangeView| c is FieldAdded).len()) + " field(s)"@,
            change_summary(cs),
        ),
        cs.filter(|c: ChangeView| c is FieldRemoved).len() > 0 ==> occurs_in(
            "-"@ + decimal(cs.filter(|c: ChangeView| c is FieldRemoved).len()) + " field(s)"@,
            change_summary(cs),
        ),
        cs.filter(|c: ChangeView| c is MethodAdded).len() > 0 ==> occurs_in(
            "+"@ + decimal(cs.filter(|c: ChangeView| c is MethodAdded).len()) + " method(s)"@,
            change_summary(cs),
        ),
        cs.filter(|c: ChangeView| c is MethodRemoved).len() > 0 ==> occurs_in(
            "-"@ + decimal(cs.filter(|c: ChangeView| c is MethodRemoved).len()) + " method(s)"@,
            change_summary(cs),
        ),
        cs.filter(|c: ChangeView| c is EnumValueAdded).len() > 0 ==> occurs_in(
            "+"@ + decimal(cs.filter(|c: ChangeView| c is EnumValueAdded).len()) + " value(s)"@,
            change_summary(cs),
        ),
        cs.filter(|c: ChangeView| c is EnumValueRemoved).len() > 0 ==> occurs_in(
            "-"@ + decimal(cs.filter(|c: ChangeView| c is EnumValueRemoved).len()) + " value(s)"@,
            change_summary(cs),
        ),
        change_summary(cs).len() == 0 <==> cs.len() == 0,
{
    lemma_count_kind_filter(cs, 0, |c: ChangeView| c is FieldAdded);
    lemma_count_kind_filter(cs, 1, |c: ChangeView| c is FieldRemoved);
    lemma_count_kind_filter(cs, 2, |c: ChangeView| c is MethodAdded);
    lemma_count_kind_filter(cs, 3, |c: ChangeView| c is MethodRemoved);
    lemma_count_kind_filter(cs, 4, |c: ChangeView| c is EnumValueAdded);
    lemma_count_kind_filter(cs, 5, |c: ChangeView| c is EnumValueRemoved);
    let p0 = summary_part("+"@, count_kind(cs, 0), " field(s)"@);
    let p1 = summary_part("-"@, count_kind(cs, 1), " field(s)"@);
    let p2 = summary_part("+"@, count_kind(cs, 2), " method(s)"@);
    let p3 = summary_part("-"@, count_kind(cs, 3), " method(s)"@);
    let p4 = summary_part("+"@, count_kind(cs, 4), " value(s)"@);
    let p5 = summary_part("-"@, count_kind(cs, 5), " value(s)"@);
    let parts = summary_parts(cs);
    assert(parts == p0 + p1 + p2 + p3 + p4 + p5);
    let sep = ", "@;
    if count_kind(cs, 0) > 0 {
        assert(parts[0] == p0[0]);
        lemma_join_contains(parts, sep, 0);
    }
    if count_kind(cs, 1) > 0 {
        assert(parts[p0.len() as int] == p1[0]);
        lemma_join_contains(parts, sep, p0.len() as int);
    }
    if count_kind(cs, 2) > 0 {
        assert(parts[(p0 + p1).len() as int] == p2[0]);
        lemma_join_contains(parts, sep, (p0 + p1).len() as int);
    }
    if count_kind(cs, 3) > 0 {
        assert(parts[(p0 + p1 + p2).len() as int] == p3[0]);
        lemma_join_contains(parts, sep, (p0 + p1 + p2).len() as int);
    }
    if count_kind(cs, 4) > 0 {
        assert(parts[(p0 + p1 + p2 + p3).len() as int] == p4[0]);
        lemma_join_contains(parts, sep, (p0 + p1 + p2 + p3).len() as int);
    }
    if count_kind(cs, 5) > 0 {
        assert(parts[(p0 + p1 + p2 + p3 + p4).len() as int] == p5[0]);
        lemma_join_contains(parts, sep, (p0 + p1 + p2 + p3 + p4).len() as int);
    }
    if cs.len() == 0 {
        assert(parts.len() == 0);
        lemma_join_empty(parts, sep);
    } else {
        lemma_count_total(cs);
        assert(parts.len() > 0);
        lemma_join_contains(parts, sep, 0);
        reveal_strlit("+");
        reveal_strlit("-");
        assert(parts[0].len() > 0);
    }
}

/// Every sign character of `s` is followed by a digit other than `0`.
spec fn signs_before_nonzero(s: Seq<char>) -> bool {
    forall|i: int|
        0 <= i < s.len() && (#[trigger] s[i] == '+' || s[i] == '-') ==> i + 1 < s.len() && s[i + 1] != '0'
}

/// `s` holds no sign character.
spec fn no_signs(s: Seq<char>) -> bool {
    forall|i: int| 0 <= i < s.len() ==> #[trigger] s[i] != '+' && s[i] != '-'
}

proof fn lemma_decimal_digits(n: nat)
    ensures
        decimal(n).len() >= 1,
        no_signs(decimal(n)),
        n > 0 ==> decimal(n)[0] != '0',
    decreases n,
{
    if n >= 10 {
        lemma_decimal_digits(n / 10);
    }
}

proof fn lemma_signs_concat(a: Seq<char>, b: Seq<char>)
    requires
        signs_before_nonzero(a),
        signs_before_nonzero(b),
    ensures
        signs_before_nonzero(a + b),
{
    let s = a + b;
    assert forall|i: int| 0 <= i < s.len() && (#[trigger] s[i] == '+' || s[i] == '-') implies i + 1 < s.len() && s[
        i + 1] != '0' by {
        if i < a.len() {
            assert(a[i] == s[i]);
            assert(a[i + 1] != '0');
            assert(s[i + 1] == a[i + 1]);
        } else {
            assert(b[i - a.len()] == s[i]);
            assert(b[i - a.len() + 1] != '0');
            assert(s[i + 1] == b[i - a.len() + 1]);
        }
    }
}

proof fn lemma_signs_part(sign: Seq<char>, n: nat, tail: Seq<char>)
    requires
        sign.len() == 1,
        n > 0,
        no_signs(tail),
    ensures
        signs_before_nonzero(sign + decimal(n) + tail),
{
    lemma_decimal_digits(n);
    let d = decimal(n);
    let s = sign + d + tail;
    assert forall|i: int| 0 <= i < s.len() && (#[trigger] s[i] == '+' || s[i] == '-') implies i + 1 < s.len() && s[
        i + 1] != '0' by {
        if i == 0 {
            assert(s[1] == d[0]);
        } else if i < 1 + d.len() {
            assert(s[i] == d[i - 1]);
        } else {
            assert(s[i] == tail[i - 1 - d.len()]);
        }
    }
}

proof fn lemma_signs_join(parts: Seq<Seq<char>>, sep: Seq<char>)
    requires
        forall|i: int| 0 <= i < parts.len() ==> signs_before_nonzero(#[trigger] parts[i]),
        no_signs(sep),
    ensures
        signs_before_nonzero(join(parts, sep)),
    decreases parts.len(),
{
    if parts.len() == 1 {
        assert(signs_before_nonzero(parts[0]));
    } else if parts.len() > 1 {
        let prev = parts.drop_last();
        assert forall|i: int| 0 <= i < prev.len() implies signs_before_nonzero(#[trigger] prev[i]) by {
            assert(prev[i] == parts[i]);
        }
        lemma_signs_join(prev, sep);
        assert(signs_before_nonzero(sep));
        lemma_signs_concat(join(prev, sep), sep);
        assert(signs_before_nonzero(parts[parts.len() - 1]));
        lemma_signs_concat(join(prev, sep) + sep, parts.last());
    }
}

proof fn lemma_summary_part_signs(sign: Seq<char>, n: nat, tail: Seq<char>)
    requires
        sign.len() == 1,
        no_signs(tail),
    ensures
        forall|i: int|
            0 <= i < summary_part(sign, n, tail).len() ==> signs_before_nonzero(
                #[trigger] summary_part(sign, n, tail)[i],
            ),
{
    if n > 0 {
        lemma_signs_part(sign, n, tail);
    }
}

/// A summary never shows a count of zero: a kind of change that does not
/// occur gets no part.
pub proof fn lemma_summary_has_no_zero_count(cs: Seq<ChangeView>)
    ensures
        !occurs_in("+0"@, change_summary(cs)),
        !occurs_in("-0"@, change_summary(cs)),
{
    reveal_strlit("+");
    reveal_strlit("-");
    reveal_strlit("+0");
    reveal_strlit("-0");
    reveal_strlit(", ");
    reveal_strlit(" field(s)");
    reveal_strlit(" method(s)");
    reveal_strlit(" value(s)");
    let parts = summary_parts(cs);
    let ps = seq![
        summary_part("+"@, count_kind(cs, 0), " field(s)"@),
        summary_part("-"@, count_kind(cs, 1), " field(s)"@),
        summary_part("+"@, count_kind(cs, 2), " method(s)"@),
        summary_part("-"@, count_kind(cs, 3), " method(s)"@),
        summary_part("+"@, count_kind(cs, 4), " value(s)"@),
        summary_part("-"@, count_kind(cs, 5), " value(s)"@),
    ];
    assert(no_signs(" field(s)"@));
    assert(no_signs(" method(s)"@));
    assert(no_signs(" value(s)"@));
    assert(no_signs(", "@));
    lemma_summary_part_signs("+"@, count_kind(cs, 0), " field(s)"@);
    lemma_summary_part_signs("-"@, count_kind(cs, 1), " field(s)"@);
    lemma_summary_part_signs("+"@, count_kind(cs, 2), " method(s)"@);
    lemma_summary_part_signs("-"@, count_kind(cs, 3), " method(s)"@);
    lemma_summary_part_signs("+"@, count_kind(cs, 4), " value(s)"@);
    lemma_summary_part_signs("-"@, count_kind(cs, 5), " value(s)"@);
    assert(parts == ps[0] + ps[1] + ps[2] + ps[3] + ps[4] + ps[5]);
    assert forall|i: int| 0 <= i < parts.len() implies signs_before_nonzero(#[trigger] parts[i]) by {
        let l0 = ps[0].len();
        let l1 = l0 + ps[1].len();
        let l2 = l1 + ps[2].len();
        let l3 = l2 + ps[3].len();
        let l4 = l3 + ps[4].len();
        if i < l0 {
            assert(parts[i] == ps[0][i]);
        } else if i < l1 {
            assert(parts[i] == ps[1][i - l0]);
        } else if i < l2 {
            assert(parts[i] == ps[2][i - l1]);
        } else if i < l3 {
            assert(parts[i] == ps[3][i - l2]);
        } else if i < l4 {
            assert(parts[i] == ps[4][i - l3]);
        } else {
            assert(parts[i] == ps[5][i - l4]);
        }
    }
    lemma_signs_join(parts, ", "@);
    let s = change_summary(cs);
    if occurs_in("+0"@, s) {
        let i = choose|i: int| 0 <= i && i + "+0"@.len() <= s.len() && #[trigger] s.subrange(i, i + "+0"@.len()) == "+0"@;
        assert(s[i] == s.subrange(i, i + 2)[0]);
        assert(s[i + 1] == s.subrange(i, i + 2)[1]);
    }
    if occurs_in("-0"@, s) {
        let i = choose|i: int| 0 <= i && i + "-0"@.len() <= s.len() && #[trigger] s.subrange(i, i + "-0"@.len()) == "-0"@;
        assert(s[i] == s.subrange(i, i + 2)[0]);
        assert(s[i + 1] == s.subrange(i, i + 2)[1]);
    }
}

/// `p1` occurs in `s` at a position before one where `p2` occurs.
pub open spec fn occurs_before(p1: Seq<char>, p2: Seq<char>, s: Seq<char>) -> bool {
    exists|i: int, j: int|
        0 <= i < j && i + p1.len() <= s.len() && j + p2.len() <= s.len() && #[trigger] s.subrange(i, i + p1.len())
            == p1 && #[trigger] s.subrange(j, j + p2.len()) == p2
}

/// `c` is a change of kind `k`, in the order fields added, fields removed,
/// methods added, methods removed, values added, values removed.
pub open spec fn is_kind(c: ChangeView, k: int) -> bool {
    if k == 0 {
        c is FieldAdded
    } else if k == 1 {
        c is FieldRemoved
    } else if k == 2 {
        c is MethodAdded
    } else if k == 3 {
        c is MethodRemoved
    } else if k == 4 {
        c is EnumValueAdded
    } else {
        k == 5 && c is EnumValueRemoved
    }
}

/// The number of changes of kind `k` among `cs`.
pub open spec fn kind_count(cs: Seq<ChangeView>, k: int) -> nat {
    cs.filter(|c: ChangeView| is_kind(c, k)).len()
}

/// How a summary names the changes of kind `k`: `+n` for additions, `-n`
/// for removals, then what changed.
pub open spec fn kind_part(cs: Seq<ChangeView>, k: int) -> Seq<char> {
    (if k % 2 == 0 {
        "+"@
    } else {
        "-"@
    }) + decimal(kind_count(cs, k)) + (if k < 2 {
        " field(s)"@
    } else if k < 4 {
        " method(s)"@
    } else {
        " value(s)"@
    })
}

proof fn lemma_join_order(parts: Seq<Seq<char>>, sep: Seq<char>, a: int, b: int)
    requires
        0 <= a < b < parts.len(),
        sep.len() > 0,
    ensures
        occurs_before(parts[a], parts[b], join(parts, sep)),
    decreases parts.len(),
{
    let prev = parts.drop_last();
    let s = join(parts, sep);
    if b == parts.len() - 1 {
        lemma_join_contains(prev, sep, a);
        assert(prev[a] == parts[a]);
        let jp = join(prev, sep);
        let i = choose|i: int|
            0 <= i && i + parts[a].len() <= jp.len() && #[trigger] jp.subrange(i, i + parts[a].len()) == parts[a];
        let j: int = (jp.len() + sep.len()) as int;
        assert(s == jp + sep + parts.last());
        assert(s.subrange(i, i + parts[a].len()) =~= jp.subrange(i, i + parts[a].len()));
        assert(s.subrange(j, j + parts[b].len()) =~= parts[b]);
    } else {
        lemma_join_order(prev, sep, a, b);
        assert(prev[a] == parts[a] && prev[b] == parts[b]);
        let jp = join(prev, sep);
        let (i, j) = choose|i: int, j: int|
            0 <= i < j && i + parts[a].len() <= jp.len() && j + parts[b].len() <= jp.len() && #[trigger] jp.subrange(
                i,
                i + parts[a].len(),
            ) == parts[a] && #[trigger] jp.subrange(j, j + parts[b].len()) == parts[b];
        assert(s == jp + sep + parts.last());
        assert(s.subrange(i, i + parts[a].len()) =~= jp.subrange(i, i + parts[a].len()));
        assert(s.subrange(j, j + parts[b].len()) =~= jp.subrange(j, j + parts[b].len()));
    }
}

/// The summary names each kind of change that occurs, and names the kinds
/// in a fixed order: fields added, fields removed, methods added, methods
/// removed, values added, values removed; of two kinds that both occur, the
/// earlier one comes first.
pub proof fn lemma_summary_kind_order(cs: Seq<ChangeView>)
    ensures
        forall|k: int|
            0 <= k < 6 && kind_count(cs, k) > 0 ==> occurs_in(#[trigger] kind_part(cs, k), change_summary(cs)),
        forall|k1: int, k2: int|
            0 <= k1 < k2 < 6 && kind_count(cs, k1) > 0 && kind_count(cs, k2) > 0 ==> occurs_before(
                #[trigger] kind_part(cs, k1),
                #[trigger] kind_part(cs, k2),
                change_summary(cs),
            ),
{
    lemma_count_kind_filter(cs, 0, |c: ChangeView| is_kind(c, 0));
    lemma_count_kind_filter(cs, 1, |c: ChangeView| is_kind(c, 1));
    lemma_count_kind_filter(cs, 2, |c: ChangeView| is_kind(c, 2));
    lemma_count_kind_filter(cs, 3, |c: ChangeView| is_kind(c, 3));
    lemma_count_kind_filter(cs, 4, |c: ChangeView| is_kind(c, 4));
    lemma_count_kind_filter(cs, 5, |c: ChangeView| is_kind(c, 5));
    let ps = seq![
        summary_part("+"@, count_kind(cs, 0), " field(s)"@),
        summary_part("-"@, count_kind(cs, 1), " field(s)"@),
        summary_part("+"@, count_kind(cs, 2), " method(s)"@),
        summary_part("-"@, count_kind(cs, 3), " method(s)"@),
        summary_part("+"@, count_kind(cs, 4), " value(s)"@),
        summary_part("-"@, count_kind(cs, 5), " value(s)"@),
    ];
    let parts = summary_parts(cs);
    assert(parts == ps[0] + ps[1] + ps[2] + ps[3] + ps[4] + ps[5]);
    let l1 = ps[0].len() as int;
    let l2 = l1 + ps[1].len();
    let l3 = l2 + ps[2].len();
    let l4 = l3 + ps[3].len();
    let l5 = l4 + ps[4].len();
    let off = |k: int|
        if k == 0 {
            0int
        } else if k == 1 {
            l1
        } else if k == 2 {
            l2
        } else if k == 3 {
            l3
        } else if k == 4 {
            l4
        } else {
            l5
        };
    assert forall|k: int| 0 <= k < 6 && kind_count(cs, k) > 0 implies off(k) < parts.len() && parts[off(k)]
        == kind_part(cs, k) && off(k) + 1 <= (if k == 5 {
        parts.len() as int
    } else {
        off(k + 1)
    }) by {
        if k == 0 {
            assert(parts[0] == ps[0][0]);
        } else if k == 1 {
            assert(parts[l1] == ps[1][0]);
        } else if k == 2 {
            assert(parts[l2] == ps[2][0]);
        } else if k == 3 {
            assert(parts[l3] == ps[3][0]);
        } else if k == 4 {
            assert(parts[l4] == ps[4][0]);
        } else {
            assert(parts[l5] == ps[5][0]);
        }
    }
    reveal_strlit(", ");
    assert forall|k: int| 0 <= k < 6 && kind_count(cs, k) > 0 implies occurs_in(
        #[trigger] kind_part(cs, k),
        change_summary(cs),
    ) by {
        lemma_join_contains(parts, ", "@, off(k));
    }
    assert forall|k1: int, k2: int|
        0 <= k1 < k2 < 6 && kind_count(cs, k1) > 0 && kind_count(cs, k2) > 0 implies occurs_before(
            #[trigger] kind_part(cs, k1),
            #[trigger] kind_part(cs, k2),
            change_summary(cs),
        ) by {
        assert(off(k1) < off(k2));
        lemma_join_order(parts, ", "@, off(k1), off(k2));
    }
}

proof fn lemma_occurs_trans(p: Seq<char>, q: Seq<char>, s: Seq<char>)
    requires
        occurs_in(p, q),
        occurs_in(q, s),
    ensures
        occurs_in(p, s),
{
    let i = choose|i: int| 0 <= i && i + p.len() <= q.len() && #[trigger] q.subrange(i, i + p.len()) == p;
    let j = choose|j: int| 0 <= j && j + q.len() <= s.len() && #[trigger] s.subrange(j, j + q.len()) == q;
    assert(s.subrange(j + i, j + i + p.len()) =~= q.subrange(i, i + p.len()));
}

proof fn lemma_rows_contain(ms: Seq<ModifiedItemView>, i: int)
    requires
        0 <= i < ms.len(),
    ensures
        occurs_in(modified_row(ms[i]), modified_rows(ms)),
    decreases ms.len(),
{
    let prev = ms.drop_last();
    if i == ms.len() - 1 {
        lemma_occurs_self(modified_row(ms[i]));
        lemma_occurs_right(modified_row(ms[i]), modified_rows(prev), modified_row(ms[i]));
    } else {
        lemma_rows_contain(prev, i);
        assert(prev[i] == ms[i]);
        lemma_occurs_left(modified_row(ms[i]), modified_rows(prev), modified_row(ms.last()));
    }
}

/// The Markdown of a diff: the note that nothing changed exactly when the
/// report lists nothing; otherwise a heading with the number of added nodes
/// when some were added, one with the number of removed nodes when some
/// were removed, and for each modified node, each kind of change that
/// occurs in it with its count.
pub proof fn lemma_markdown_shows_changes(r: DiffReportView)
    ensures
        !report_has_changes(r) ==> diff_markdown(r) == "### No Changes Detected\n\n"@,
        items_count(r.added) > 0 ==> occurs_in(
            "#### ✅ Added (+"@ + decimal(items_count(r.added)) + ")\n"@,
            diff_markdown(r),
        ),
        items_count(r.removed) > 0 ==> occurs_in(
            "#### ❌ Removed (-"@ + decimal(items_count(r.removed)) + ")\n"@,
            diff_markdown(r),
        ),
        forall|i: int, k: int|
            0 <= i < r.modified.len() && 0 <= k < 6 && kind_count(r.modified[i].changes, k) > 0 ==> occurs_in(
                #[trigger] kind_part(r.modified[i].changes, k),
                diff_markdown(r),
            ),
{
    let head = "### Changes from Base\n\n"@;
    let added = items_section("#### ✅ Added (+"@, r.added);
    let modified = modified_section(r.modified);
    let removed = items_section("#### ❌ Removed (-"@, r.removed);
    if report_has_changes(r) {
        assert(diff_markdown(r) == head + added + modified + removed);
    }
    if items_count(r.added) > 0 {
        let h = "#### ✅ Added (+"@ + decimal(items_count(r.added)) + ")\n"@;
        assert(added == h + diff_table(r.added));
        lemma_occurs_self(h);
        lemma_occurs_left(h, h, diff_table(r.added));
        lemma_occurs_right(h, head, added);
        lemma_occurs_left(h, head + added, modified);
        lemma_occurs_left(h, head + added + modified, removed);
    }
    if items_count(r.removed) > 0 {
        let h = "#### ❌ Removed (-"@ + decimal(items_count(r.removed)) + ")\n"@;
        assert(removed == h + diff_table(r.removed));
        lemma_occurs_self(h);
        lemma_occurs_left(h, h, diff_table(r.removed));
        lemma_occurs_right(h, head + added + modified, removed);
    }
    assert forall|i: int, k: int|
        0 <= i < r.modified.len() && 0 <= k < 6 && kind_count(r.modified[i].changes, k) > 0 implies occurs_in(
        #[trigger] kind_part(r.modified[i].changes, k),
        diff_markdown(r),
    ) by {
        let m = r.modified[i];
        let part = kind_part(m.changes, k);
        lemma_summary_kind_order(m.changes);
        let sum = change_summary(m.changes);
        let pre = "| "@ + node_type_text(m.node_type) + " | "@ + escape_cell(m.label) + " | "@;
        assert(modified_row(m) == pre + sum + " |\n"@);
        lemma_occurs_self(sum);
        lemma_occurs_right(sum, pre, sum);
        lemma_occurs_left(sum, pre + sum, " |\n"@);
        lemma_rows_contain(r.modified, i);
        lemma_occurs_trans(sum, modified_row(m), modified_rows(r.modified));
        let mh = "#### ⚠️ Modified ("@ + decimal(r.modified.len()) + ")\n"@ + "| Type | Name | Changes |\n"@
            + "|------|------|--------|\n"@;
        assert(modified == mh + modified_rows(r.modified) + "\n"@);
        lemma_occurs_right(sum, mh, modified_rows(r.modified));
        lemma_occurs_left(sum, mh + modified_rows(r.modified), "\n"@);
        lemma_occurs_right(sum, head + added, modified);
        lemma_occurs_left(sum, head + added + modified, removed);
        lemma_occurs_trans(part, sum, diff_markdown(r));
    }
}

} // verus!
