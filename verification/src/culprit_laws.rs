//! What holds of the culprit findings of every pattern.

use vstd::prelude::*;
#[allow(unused_imports)]
use vstd::set_lib::{lemma_int_range, lemma_set_disjoint_lens, set_int_range};

#[allow(unused_imports)]
use crate::culprit::CulpritModel;
#[allow(unused_imports)]
use crate::hir::{canonical, ClassRange, NodeModel, ShapeModel};
#[allow(unused_imports)]
use crate::hir_analysis::{
    all_findings, class_total, edge_finding, edge_findings, fixed_region_finding,
    fixed_region_findings, gap, large_class_finding, list_findings, nested_finding,
    region_findings, short_branch_finding, shortest_branch, tree_findings, unbounded,
    unbounded_inside, ANY_BYTE_CLASS_SIZE, DESIRED_ATOM_SIZE, LARGE_CLASS_SIZE,
};

verus! {

/// The elements that the ranges of a class cover.
pub open spec fn class_elements(ranges: Seq<ClassRange>) -> Set<int> {
    Set::new(
        |c: int|
            exists|i: int|
                0 <= i < ranges.len() && (#[trigger] ranges[i]).start <= c <= ranges[i].end,
    )
}

/// The size of a class is the number of distinct elements that it matches.
pub proof fn law_class_size_counts_elements(ranges: Seq<ClassRange>)
    requires
        canonical(ranges),
    ensures
        class_elements(ranges).finite(),
        class_elements(ranges).len() == class_total(ranges),
    decreases ranges.len(),
{
    if ranges.len() == 0 {
        assert(class_elements(ranges) =~= Set::empty());
    } else {
        let rest = ranges.drop_last();
        let last = ranges.last();
        let tail = set_int_range(last.start as int, last.end + 1);
        law_class_size_counts_elements(rest);
        lemma_int_range(last.start as int, last.end + 1);
        assert(class_elements(ranges) =~= class_elements(rest).union(tail)) by {
            assert forall|c: int| class_elements(ranges).contains(c) implies class_elements(
                rest,
            ).union(tail).contains(c) by {
                let i = choose|i: int|
                    0 <= i < ranges.len() && (#[trigger] ranges[i]).start <= c <= ranges[i].end;
                if i < rest.len() {
                    assert(rest[i] == ranges[i]);
                }
            }
            assert forall|c: int| class_elements(rest).union(tail).contains(c) implies class_elements(
                ranges,
            ).contains(c) by {
                if class_elements(rest).contains(c) {
                    let i = choose|i: int|
                        0 <= i < rest.len() && (#[trigger] rest[i]).start <= c <= rest[i].end;
                    assert(ranges[i] == rest[i]);
                } else {
                    assert(ranges[ranges.len() - 1] == last);
                }
            }
        }
        assert(class_elements(rest).disjoint(tail)) by {
            assert forall|c: int| class_elements(rest).contains(c) implies !tail.contains(c) by {
                let i = choose|i: int|
                    0 <= i < rest.len() && (#[trigger] rest[i]).start <= c <= rest[i].end;
                assert(ranges[i].end < ranges[ranges.len() - 1].start);
            }
        }
        lemma_set_disjoint_lens(class_elements(rest), tail);
    }
}

/// A repeated class is never both content that is too large and a gap.
pub proof fn law_large_class_is_no_gap(node: NodeModel)
    ensures
        large_class_finding(node).len() > 0 ==> !gap(node),
{
}

/// `part` is `node` itself or one of the sub-expressions below it.
pub open spec fn occurs_in(part: NodeModel, node: NodeModel) -> bool
    decreases node,
{
    part == node || match node.shape {
        ShapeModel::Repetition { sub, .. } => occurs_in(part, *sub),
        ShapeModel::Capture(sub) => occurs_in(part, *sub),
        ShapeModel::Concat(subs) => exists|i: int|
            0 <= i < subs.len() && occurs_in(part, #[trigger] subs[i]),
        ShapeModel::Alternation(subs) => exists|i: int|
            0 <= i < subs.len() && occurs_in(part, #[trigger] subs[i]),
        _ => false,
    }
}

/// What is found at one expression, whatever stands above or below it in the
/// list of findings.
pub open spec fn own_findings(node: NodeModel) -> Seq<CulpritModel> {
    large_class_finding(node) + nested_finding(node) + short_branch_finding(node)
}

proof fn lemma_contains_concat<A>(a: Seq<A>, b: Seq<A>, x: A)
    ensures
        (a + b).contains(x) == (a.contains(x) || b.contains(x)),
{
    if a.contains(x) {
        let i = choose|i: int| 0 <= i < a.len() && a[i] == x;
        assert((a + b)[i] == x);
    }
    if b.contains(x) {
        let i = choose|i: int| 0 <= i < b.len() && b[i] == x;
        assert((a + b)[a.len() + i] == x);
    }
    if (a + b).contains(x) {
        let i = choose|i: int| 0 <= i < (a + b).len() && (a + b)[i] == x;
        if i < a.len() {
            assert(a[i] == x);
        } else {
            assert(b[i - a.len()] == x);
        }
    }
}

pub(crate) proof fn lemma_own_findings_contain(node: NodeModel, c: CulpritModel)
    ensures
        own_findings(node).contains(c) == (large_class_finding(node).contains(c) || nested_finding(
            node,
        ).contains(c) || short_branch_finding(node).contains(c)),
{
    lemma_contains_concat(large_class_finding(node), nested_finding(node), c);
    lemma_contains_concat(
        large_class_finding(node) + nested_finding(node),
        short_branch_finding(node),
        c,
    );
}

/// The walk over the tree reports exactly what is found at its expressions:
/// nothing is missed at any depth, and nothing else is reported.
pub proof fn law_walk_reports_every_expression(node: NodeModel, c: CulpritModel)
    ensures
        tree_findings(node).contains(c) <==> exists|part: NodeModel| #[trigger]
            occurs_in(part, node) && own_findings(part).contains(c),
    decreases node,
{
    lemma_own_findings_contain(node, c);
    assert(occurs_in(node, node));
    match node.shape {
        ShapeModel::Repetition { sub, .. } => {
            law_walk_reports_every_expression(*sub, c);
            lemma_contains_concat(large_class_finding(node), nested_finding(node), c);
            lemma_contains_concat(
                large_class_finding(node) + nested_finding(node),
                tree_findings(*sub),
                c,
            );
            assert(forall|part: NodeModel| #[trigger]
                occurs_in(part, *sub) ==> occurs_in(part, node));
            if tree_findings(node).contains(c) {
                if tree_findings(*sub).contains(c) {
                    let part = choose|part: NodeModel| #[trigger]
                        occurs_in(part, *sub) && own_findings(part).contains(c);
                    assert(occurs_in(part, node));
                } else {
                    assert(own_findings(node).contains(c));
                }
            }
            assert forall|part: NodeModel| #[trigger]
                occurs_in(part, node) && own_findings(part).contains(c) implies tree_findings(
                node,
            ).contains(c) by {
                if part != node {
                    assert(occurs_in(part, *sub));
                }
            }
        },
        ShapeModel::Capture(sub) => {
            law_walk_reports_every_expression(*sub, c);
            assert(forall|part: NodeModel| #[trigger]
                occurs_in(part, *sub) ==> occurs_in(part, node));
            assert(!own_findings(node).contains(c));
            if tree_findings(node).contains(c) {
                let part = choose|part: NodeModel| #[trigger]
                    occurs_in(part, *sub) && own_findings(part).contains(c);
                assert(occurs_in(part, node));
            }
            assert forall|part: NodeModel| #[trigger]
                occurs_in(part, node) && own_findings(part).contains(c) implies tree_findings(
                node,
            ).contains(c) by {
                assert(occurs_in(part, *sub));
            }
        },
        ShapeModel::Concat(subs) => {
            lemma_list_reports_every_expression(subs, c);
            lemma_occurs_in_list(node, subs);
            lemma_list_findings_of(node, subs, c);
            assert(!own_findings(node).contains(c));
        },
        ShapeModel::Alternation(subs) => {
            lemma_list_reports_every_expression(subs, c);
            lemma_contains_concat(short_branch_finding(node), list_findings(subs), c);
            lemma_occurs_in_list(node, subs);
            lemma_list_findings_of(node, subs, c);
        },
        _ => {
            assert(tree_findings(node) =~= Seq::empty());
            assert(!own_findings(node).contains(c));
        },
    }
}

pub(crate) proof fn lemma_occurs_in_list(node: NodeModel, subs: Seq<NodeModel>)
    requires
        node.shape == ShapeModel::Concat(subs) || node.shape == ShapeModel::Alternation(subs),
    ensures
        forall|part: NodeModel, i: int|
            0 <= i < subs.len() && #[trigger] occurs_in(part, subs[i]) ==> occurs_in(part, node),
        forall|part: NodeModel|
            #![trigger occurs_in(part, node)]
            occurs_in(part, node) ==> part == node || exists|i: int|
                0 <= i < subs.len() && #[trigger] occurs_in(part, subs[i]),
{
    assert forall|part: NodeModel, i: int|
        0 <= i < subs.len() && #[trigger] occurs_in(part, subs[i]) implies occurs_in(
        part,
        node,
    ) by {
        match node.shape {
            ShapeModel::Concat(s) => {
                assert(occurs_in(part, s[i]));
            },
            ShapeModel::Alternation(s) => {
                assert(occurs_in(part, s[i]));
            },
            _ => {},
        }
    }
    assert forall|part: NodeModel|
        #![trigger occurs_in(part, node)]
        occurs_in(part, node) implies part == node || exists|i: int|
        0 <= i < subs.len() && #[trigger] occurs_in(part, subs[i]) by {
        if part != node {
            let i = choose|i: int| 0 <= i < subs.len() && occurs_in(part, #[trigger] subs[i]);
            assert(occurs_in(part, subs[i]));
        }
    }
}

proof fn lemma_list_findings_of(node: NodeModel, subs: Seq<NodeModel>, c: CulpritModel)
    requires
        node.shape == ShapeModel::Concat(subs) || node.shape == ShapeModel::Alternation(subs),
        list_findings(subs).contains(c) <==> exists|part: NodeModel, i: int|
            0 <= i < subs.len() && #[trigger] occurs_in(part, subs[i]) && own_findings(
                part,
            ).contains(c),
    ensures
        list_findings(subs).contains(c) ==> exists|part: NodeModel| #[trigger]
            occurs_in(part, node) && own_findings(part).contains(c),
        forall|part: NodeModel| #[trigger]
            occurs_in(part, node) && own_findings(part).contains(c) ==> part == node
                || list_findings(subs).contains(c),
{
    lemma_occurs_in_list(node, subs);
    if list_findings(subs).contains(c) {
        let (part, i) = choose|part: NodeModel, i: int|
            0 <= i < subs.len() && #[trigger] occurs_in(part, subs[i]) && own_findings(
                part,
            ).contains(c);
        assert(occurs_in(part, node));
    }
}

proof fn lemma_list_reports_every_expression(nodes: Seq<NodeModel>, c: CulpritModel)
    ensures
        list_findings(nodes).contains(c) <==> exists|part: NodeModel, i: int|
            0 <= i < nodes.len() && #[trigger] occurs_in(part, nodes[i]) && own_findings(
                part,
            ).contains(c),
    decreases nodes,
{
    if nodes.len() == 0 {
        assert(list_findings(nodes) =~= Seq::empty());
    } else {
        let rest = nodes.drop_last();
        lemma_list_reports_every_expression(rest, c);
        law_walk_reports_every_expression(nodes.last(), c);
        lemma_contains_concat(list_findings(rest), tree_findings(nodes.last()), c);
        if list_findings(nodes).contains(c) {
            if list_findings(rest).contains(c) {
                let (part, i) = choose|part: NodeModel, i: int|
                    0 <= i < rest.len() && #[trigger] occurs_in(part, rest[i]) && own_findings(
                        part,
                    ).contains(c);
                assert(occurs_in(part, nodes[i]));
            } else {
                let part = choose|part: NodeModel| #[trigger]
                    occurs_in(part, nodes.last()) && own_findings(part).contains(c);
                assert(occurs_in(part, nodes[nodes.len() - 1]));
            }
        }
        assert forall|part: NodeModel, i: int|
            0 <= i < nodes.len() && #[trigger] occurs_in(part, nodes[i]) && own_findings(
                part,
            ).contains(c) implies list_findings(nodes).contains(c) by {
            if i < rest.len() {
                assert(occurs_in(part, rest[i]));
            } else {
                assert(occurs_in(part, nodes.last()));
            }
        }
    }
}

/// An unbounded repetition is inside an expression exactly if it is that
/// expression or occurs anywhere below it. So nested repetitions are found
/// whatever stands between them.
pub proof fn law_unbounded_inside_means_it_occurs(node: NodeModel)
    ensures
        unbounded_inside(node) <==> exists|part: NodeModel| #[trigger]
            occurs_in(part, node) && unbounded(part),
    decreases node,
{
    assert(occurs_in(node, node));
    match node.shape {
        ShapeModel::Repetition { sub, .. } => {
            law_unbounded_inside_means_it_occurs(*sub);
            assert(forall|part: NodeModel| #[trigger]
                occurs_in(part, *sub) ==> occurs_in(part, node));
            if unbounded_inside(node) && !unbounded(node) {
                let part = choose|part: NodeModel| #[trigger]
                    occurs_in(part, *sub) && unbounded(part);
                assert(occurs_in(part, node));
            }
            assert forall|part: NodeModel| #[trigger]
                occurs_in(part, node) && unbounded(part) implies unbounded_inside(node) by {
                if part != node {
                    assert(occurs_in(part, *sub));
                }
            }
        },
        ShapeModel::Capture(sub) => {
            law_unbounded_inside_means_it_occurs(*sub);
            assert(forall|part: NodeModel| #[trigger]
                occurs_in(part, *sub) ==> occurs_in(part, node));
            if unbounded_inside(node) {
                let part = choose|part: NodeModel| #[trigger]
                    occurs_in(part, *sub) && unbounded(part);
                assert(occurs_in(part, node));
            }
            assert forall|part: NodeModel| #[trigger]
                occurs_in(part, node) && unbounded(part) implies unbounded_inside(node) by {
                assert(occurs_in(part, *sub));
            }
        },
        ShapeModel::Concat(subs) => {
            lemma_unbounded_in_list(node, subs);
        },
        ShapeModel::Alternation(subs) => {
            lemma_unbounded_in_list(node, subs);
        },
        _ => {},
    }
}

proof fn lemma_unbounded_in_list(node: NodeModel, subs: Seq<NodeModel>)
    requires
        node.shape == ShapeModel::Concat(subs) || node.shape == ShapeModel::Alternation(subs),
    ensures
        unbounded_inside(node) <==> exists|part: NodeModel| #[trigger]
            occurs_in(part, node) && unbounded(part),
    decreases subs,
{
    lemma_occurs_in_list(node, subs);
    assert forall|i: int| 0 <= i < subs.len() implies unbounded_inside(#[trigger] subs[i]) == (
    exists|part: NodeModel| #[trigger] occurs_in(part, subs[i]) && unbounded(part)) by {
        law_unbounded_inside_means_it_occurs(subs[i]);
    }
    let inside = exists|i: int| 0 <= i < subs.len() && unbounded_inside(#[trigger] subs[i]);
    assert(unbounded_inside(node) == inside);
    if inside {
        let i = choose|i: int| 0 <= i < subs.len() && unbounded_inside(#[trigger] subs[i]);
        let part = choose|part: NodeModel| #[trigger]
            occurs_in(part, subs[i]) && unbounded(part);
        assert(occurs_in(part, node));
    }
    assert forall|part: NodeModel| #[trigger]
        occurs_in(part, node) && unbounded(part) implies inside by {
        let i = choose|i: int| 0 <= i < subs.len() && #[trigger] occurs_in(part, subs[i]);
        assert(unbounded_inside(subs[i]));
    }
}

/// The length that an alternation is reported with is that of its shortest
/// branch. There is none exactly if no branch matches anything.
pub proof fn law_shortest_branch_is_the_minimum(branches: Seq<NodeModel>)
    ensures
        shortest_branch(branches) is None <==> forall|i: int|
            0 <= i < branches.len() ==> (#[trigger] branches[i]).minimum_len is None,
        shortest_branch(branches) matches Some(len) ==> {
            &&& exists|i: int|
                0 <= i < branches.len() && (#[trigger] branches[i]).minimum_len == Some(len)
            &&& forall|i: int|
                0 <= i < branches.len() && (#[trigger] branches[i]).minimum_len is Some ==> len
                    <= branches[i].minimum_len->0
        },
    decreases branches.len(),
{
    if branches.len() > 0 {
        let init = branches.drop_last();
        law_shortest_branch_is_the_minimum(init);
        assert(forall|i: int| 0 <= i < init.len() ==> #[trigger] init[i] == branches[i]);
        assert(branches.last() == branches[branches.len() - 1]);
        if let Some(len) = shortest_branch(init) {
            let i = choose|i: int|
                0 <= i < init.len() && (#[trigger] init[i]).minimum_len == Some(len);
            assert(branches[i].minimum_len == Some(len));
        }
        assert forall|i: int|
            0 <= i < branches.len() && (#[trigger] branches[i]).minimum_len
                is Some implies shortest_branch(branches) is Some && shortest_branch(branches)->0
            <= branches[i].minimum_len->0 by {
            if i < init.len() {
                assert(init[i] == branches[i]);
            }
        }
    }
}

/// Whether `c` stays within the thresholds that make it a finding.
pub open spec fn within_thresholds(c: CulpritModel) -> bool {
    match c {
        CulpritModel::LargeClassRepetition { class_size, .. } => LARGE_CLASS_SIZE <= class_size
            < ANY_BYTE_CLASS_SIZE,
        CulpritModel::ShortAlternationBranch { min_branch_len, .. } => min_branch_len
            < DESIRED_ATOM_SIZE,
        CulpritModel::ShortFixedRegion { len } => len < DESIRED_ATOM_SIZE,
        _ => true,
    }
}

/// The findings about fixed regions are those of the single positions.
proof fn lemma_region_findings_contain(subs: Seq<NodeModel>, n: nat, c: CulpritModel)
    requires
        n <= subs.len(),
    ensures
        fixed_region_findings(subs, n).contains(c) <==> exists|i: int|
            0 <= i < n && (#[trigger] fixed_region_finding(subs, i)).contains(c),
    decreases n,
{
    if n == 0 {
        assert(fixed_region_findings(subs, n) =~= Seq::empty());
    } else {
        let m = (n - 1) as nat;
        lemma_region_findings_contain(subs, m, c);
        lemma_contains_concat(
            fixed_region_findings(subs, m),
            fixed_region_finding(subs, m as int),
            c,
        );
    }
}

pub(crate) proof fn lemma_all_findings_contain(node: NodeModel, c: CulpritModel)
    ensures
        all_findings(node).contains(c) == (edge_findings(node).contains(c) || tree_findings(
            node,
        ).contains(c) || region_findings(node).contains(c)),
{
    lemma_contains_concat(edge_findings(node), tree_findings(node), c);
    lemma_contains_concat(
        edge_findings(node) + tree_findings(node),
        region_findings(node),
        c,
    );
}

/// Which kinds of finding the edges, the walk and the regions can give.
pub(crate) proof fn lemma_kinds_of_findings(node: NodeModel, c: CulpritModel)
    ensures
        edge_findings(node).contains(c) ==> c is UnboundedRepetitionAtEdge,
        tree_findings(node).contains(c) ==> {
            ||| c is LargeClassRepetition
            ||| c is NestedUnboundedRepetition
            ||| c is ShortAlternationBranch
        },
        region_findings(node).contains(c) ==> c is ShortFixedRegion,
        tree_findings(node).contains(c) || region_findings(node).contains(c) ==> within_thresholds(
            c,
        ),
{
    law_walk_reports_every_expression(node, c);
    if tree_findings(node).contains(c) {
        let part = choose|part: NodeModel| #[trigger]
            occurs_in(part, node) && own_findings(part).contains(c);
        lemma_own_findings_contain(part, c);
    }
    match node.shape {
        ShapeModel::Concat(subs) => {
            lemma_region_findings_contain(subs, subs.len(), c);
            if region_findings(node).contains(c) {
                let i = choose|i: int|
                    0 <= i < subs.len() && (#[trigger] fixed_region_finding(subs, i)).contains(c);
                assert(fixed_region_finding(subs, i).contains(c));
            }
            if subs.len() > 0 {
                lemma_contains_concat(
                    edge_finding(subs.first(), true),
                    edge_finding(subs.last(), false),
                    c,
                );
            }
        },
        _ => {},
    }
}

/// Every finding stays within its threshold: a large class has at least
/// [`LARGE_CLASS_SIZE`] and fewer than [`ANY_BYTE_CLASS_SIZE`] elements, and a
/// short branch or region is shorter than [`DESIRED_ATOM_SIZE`].
pub proof fn law_findings_respect_thresholds(node: NodeModel, c: CulpritModel)
    requires
        all_findings(node).contains(c),
    ensures
        within_thresholds(c),
{
    lemma_all_findings_contain(node, c);
    lemma_kinds_of_findings(node, c);
}

/// The expression at an edge of the pattern. A pattern that is no
/// concatenation counts as its own leading edge and has no trailing one.
pub open spec fn edge_expression(node: NodeModel, leading: bool) -> Option<NodeModel> {
    match node.shape {
        ShapeModel::Concat(subs) => if subs.len() == 0 {
            None
        } else if leading {
            Some(subs.first())
        } else {
            Some(subs.last())
        },
        _ => if leading {
            Some(node)
        } else {
            None
        },
    }
}

/// A repetition is reported as being at an edge exactly if it is the
/// expression at that edge and has no upper bound. One in the middle of the
/// pattern never is.
pub proof fn law_edge_findings_are_at_the_edges(node: NodeModel, leading: bool, expr: Seq<char>)
    ensures
        all_findings(node).contains(CulpritModel::UnboundedRepetitionAtEdge { leading, expr })
            <==> (edge_expression(node, leading) matches Some(edge) && unbounded(edge)
            && edge.text == expr),
{
    let c = CulpritModel::UnboundedRepetitionAtEdge { leading, expr };
    lemma_all_findings_contain(node, c);
    lemma_kinds_of_findings(node, c);
    match node.shape {
        ShapeModel::Concat(subs) => {
            if subs.len() > 0 {
                let first = edge_finding(subs.first(), true);
                let last = edge_finding(subs.last(), false);
                lemma_contains_concat(first, last, c);
                if unbounded(subs.first()) {
                    assert(first[0] == (CulpritModel::UnboundedRepetitionAtEdge {
                        leading: true,
                        expr: subs.first().text,
                    }));
                }
                if unbounded(subs.last()) {
                    assert(last[0] == (CulpritModel::UnboundedRepetitionAtEdge {
                        leading: false,
                        expr: subs.last().text,
                    }));
                }
            }
        },
        _ => {
            if unbounded(node) {
                assert(edge_findings(node)[0] == (CulpritModel::UnboundedRepetitionAtEdge {
                    leading: true,
                    expr: node.text,
                }));
            }
        },
    }
}

/// The sub-expression at `i` is a literal of `len` bytes, shorter than an atom
/// should be, with a gap right before or right after it.
pub open spec fn short_region_at(subs: Seq<NodeModel>, i: int, len: nat) -> bool {
    &&& 0 <= i < subs.len()
    &&& subs[i].shape matches ShapeModel::Literal(bytes)
    &&& bytes.len() == len
    &&& len < DESIRED_ATOM_SIZE
    &&& (i > 0 && gap(subs[i - 1])) || (i + 1 < subs.len() && gap(subs[i + 1]))
}

/// A short fixed region is reported exactly if the pattern is a concatenation
/// that has one.
pub proof fn law_short_regions_are_next_to_gaps(node: NodeModel, len: nat)
    ensures
        all_findings(node).contains(CulpritModel::ShortFixedRegion { len }) <==> (
        node.shape matches ShapeModel::Concat(subs) && exists|i: int|
            short_region_at(subs, i, len)),
{
    let c = CulpritModel::ShortFixedRegion { len };
    lemma_all_findings_contain(node, c);
    lemma_kinds_of_findings(node, c);
    if let ShapeModel::Concat(subs) = node.shape {
        lemma_region_findings_contain(subs, subs.len(), c);
        assert forall|i: int| 0 <= i < subs.len() implies (#[trigger] fixed_region_finding(
            subs,
            i,
        )).contains(c) == short_region_at(subs, i, len) by {
            if short_region_at(subs, i, len) {
                assert(fixed_region_finding(subs, i)[0] == c);
            }
        }
        if exists|i: int| short_region_at(subs, i, len) {
            let i = choose|i: int| short_region_at(subs, i, len);
            assert(fixed_region_finding(subs, i).contains(c));
        }
    }
}

/// A pattern without any repetition and without any alternation has no
/// findings.
pub proof fn law_plain_patterns_have_no_findings(node: NodeModel)
    requires
        forall|part: NodeModel| #[trigger]
            occurs_in(part, node) ==> !(part.shape is Repetition) && !(part.shape is Alternation),
    ensures
        all_findings(node).len() == 0,
{
    if all_findings(node).len() > 0 {
        let c = all_findings(node)[0];
        assert(all_findings(node).contains(c));
        lemma_all_findings_contain(node, c);
        lemma_kinds_of_findings(node, c);
        law_walk_reports_every_expression(node, c);
        assert(occurs_in(node, node));
        if tree_findings(node).contains(c) {
            let part = choose|part: NodeModel| #[trigger]
                occurs_in(part, node) && own_findings(part).contains(c);
            lemma_own_findings_contain(part, c);
        } else if let ShapeModel::Concat(subs) = node.shape {
            lemma_occurs_in_list(node, subs);
            assert forall|i: int| 0 <= i < subs.len() implies !(#[trigger] subs[i].shape
                is Repetition) by {
                assert(occurs_in(subs[i], subs[i]));
            }
            if region_findings(node).contains(c) {
                lemma_region_findings_contain(subs, subs.len(), c);
                let i = choose|i: int|
                    0 <= i < subs.len() && (#[trigger] fixed_region_finding(subs, i)).contains(c);
                assert(fixed_region_finding(subs, i).contains(c));
            } else {
                lemma_contains_concat(
                    edge_finding(subs.first(), true),
                    edge_finding(subs.last(), false),
                    c,
                );
                assert(subs[0] == subs.first());
                assert(subs[subs.len() - 1] == subs.last());
            }
        }
    }
}

} // verus!
