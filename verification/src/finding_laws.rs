//! Which findings a pattern has, said of its expressions alone.
#[allow(unused_imports)]
use crate::culprit::CulpritModel;
#[allow(unused_imports)]
use crate::culprit_laws::{
    class_elements, law_class_size_counts_elements, law_shortest_branch_is_the_minimum,
    law_unbounded_inside_means_it_occurs, law_walk_reports_every_expression,
    lemma_all_findings_contain, lemma_kinds_of_findings, lemma_own_findings_contain, occurs_in,
    own_findings,
};
#[allow(unused_imports)]
use crate::hir::{well_formed, NodeModel, ShapeModel};
#[allow(unused_imports)]
use crate::hir_analysis::{
    all_findings, class_total, edge_findings, fixed_region_findings, gap, large_class_finding,
    list_findings, nested_finding, region_findings, short_branch_finding, shortest_branch,
    tree_findings, unbounded, unbounded_inside,
};
use vstd::prelude::*;

verus! {

/// The expression repeats another without an upper bound.
pub open spec fn repeats_without_bound(node: NodeModel) -> bool {
    match node.shape {
        ShapeModel::Repetition { max, .. } => max == None::<u32>,
        _ => false,
    }
}

/// The expression repeats, at least `min` times, a class with `size` elements.
pub open spec fn repeats_a_class(node: NodeModel, min: nat, size: nat) -> bool {
    match node.shape {
        ShapeModel::Repetition { min: least, sub, .. } => least == min && match sub.shape {
            ShapeModel::Class(ranges) => class_elements(ranges).len() == size,
            _ => false,
        },
        _ => false,
    }
}

/// The expression repeats another without an upper bound, and below it the same
/// happens again.
pub open spec fn nests_repetitions(node: NodeModel) -> bool {
    match node.shape {
        ShapeModel::Repetition { max, sub, .. } => max == None::<u32> && exists|part: NodeModel|
            #[trigger] occurs_in(part, *sub) && repeats_without_bound(part),
        _ => false,
    }
}

/// The expression is an alternation whose shortest branch has `len` bytes.
pub open spec fn has_shortest_branch(node: NodeModel, len: nat) -> bool {
    match node.shape {
        ShapeModel::Alternation(branches) => {
            &&& exists|i: int|
                0 <= i < branches.len() && (#[trigger] branches[i]).minimum_len is Some
                    && branches[i].minimum_len->0 == len
            &&& forall|i: int|
                0 <= i < branches.len() && (#[trigger] branches[i]).minimum_len is Some ==> len
                    <= branches[i].minimum_len->0
        },
        _ => false,
    }
}

/// The expression stands for a gap: it repeats a class of nearly all bytes.
pub open spec fn is_any_byte_gap(node: NodeModel) -> bool {
    match node.shape {
        ShapeModel::Repetition { sub, .. } => match sub.shape {
            ShapeModel::Class(ranges) => class_elements(ranges).len() >= 250,
            _ => false,
        },
        _ => false,
    }
}

/// The expression at `i` is a literal of fewer than four bytes next to a gap.
pub open spec fn short_literal_at(subs: Seq<NodeModel>, i: int) -> bool {
    match subs[i].shape {
        ShapeModel::Literal(bytes) => bytes.len() < 4 && ((i > 0 && is_any_byte_gap(subs[i - 1]))
            || (i + 1 < subs.len() && is_any_byte_gap(subs[i + 1]))),
        _ => false,
    }
}

/// The number of bytes of a literal.
pub open spec fn literal_len(node: NodeModel) -> nat {
    node.shape->Literal_0.len()
}

/// What is below a well-formed expression is well-formed.
proof fn lemma_part_well_formed(part: NodeModel, node: NodeModel)
    requires
        well_formed(node),
        occurs_in(part, node),
    ensures
        well_formed(part),
    decreases node,
{
    if part != node {
        match node.shape {
            ShapeModel::Repetition { sub, .. } => lemma_part_well_formed(part, *sub),
            ShapeModel::Capture(sub) => lemma_part_well_formed(part, *sub),
            ShapeModel::Concat(subs) => {
                let i = choose|i: int| 0 <= i < subs.len() && occurs_in(part, #[trigger] subs[i]);
                assert(well_formed(subs[i]));
                lemma_part_well_formed(part, subs[i]);
            },
            ShapeModel::Alternation(subs) => {
                let i = choose|i: int| 0 <= i < subs.len() && occurs_in(part, #[trigger] subs[i]);
                assert(well_formed(subs[i]));
                lemma_part_well_formed(part, subs[i]);
            },
            _ => {},
        }
    }
}

proof fn lemma_class_size(node: NodeModel)
    requires
        well_formed(node),
    ensures
        match node.shape {
            ShapeModel::Repetition { sub, .. } => match sub.shape {
                ShapeModel::Class(ranges) => class_elements(ranges).len() == class_total(ranges),
                _ => true,
            },
            _ => true,
        },
{
    if let ShapeModel::Repetition { sub, .. } = node.shape {
        assert(well_formed(*sub));
        if let ShapeModel::Class(ranges) = sub.shape {
            law_class_size_counts_elements(ranges);
        }
    }
}

/// The walk over a repetition reports the repeated class if it has at least 16
/// and fewer than 250 elements, whatever the bounds of the repetition; then the
/// nesting if there is one; then what is below.
pub proof fn law_walk_of_a_repetition(
    node: NodeModel,
    min: u32,
    max: Option<u32>,
    sub: NodeModel,
)
    requires
        well_formed(node),
        node.shape == (ShapeModel::Repetition { min, max, sub: Box::new(sub) }),
    ensures
        tree_findings(node) == (match sub.shape {
            ShapeModel::Class(ranges) => if 16 <= class_elements(ranges).len() < 250 {
                seq![
                    CulpritModel::LargeClassRepetition {
                        class_size: class_elements(ranges).len(),
                        min_rep: min as nat,
                        expr: node.text,
                    },
                ]
            } else {
                Seq::empty()
            },
            _ => Seq::empty(),
        }) + (if max is None && exists|part: NodeModel| #[trigger]
            occurs_in(part, sub) && repeats_without_bound(part) {
            seq![CulpritModel::NestedUnboundedRepetition { expr: node.text }]
        } else {
            Seq::empty()
        }) + tree_findings(sub),
{
    lemma_class_size(node);
    law_unbounded_repetitions(sub);
}

/// A repetition is unbounded exactly if it has no upper bound, and it is inside
/// an expression exactly if it occurs there.
pub proof fn law_unbounded_repetitions(sub: NodeModel)
    ensures
        unbounded(sub) == repeats_without_bound(sub),
        unbounded_inside(sub) <==> exists|part: NodeModel| #[trigger]
            occurs_in(part, sub) && repeats_without_bound(part),
{
    law_unbounded_inside_means_it_occurs(sub);
    assert forall|part: NodeModel| #[trigger] occurs_in(part, sub) implies unbounded(part)
        == repeats_without_bound(part) by {}
}

/// The walk over an alternation reports its shortest branch if that has fewer
/// than four bytes, and then what is in the branches, from left to right.
pub proof fn law_walk_of_an_alternation(node: NodeModel, branches: Seq<NodeModel>, len: nat)
    requires
        node.shape == ShapeModel::Alternation(branches),
    ensures
        has_shortest_branch(node, len) && len < 4 ==> tree_findings(node) == seq![
            CulpritModel::ShortAlternationBranch { min_branch_len: len, expr: node.text },
        ] + list_findings(branches),
        has_shortest_branch(node, len) && len >= 4 ==> tree_findings(node) == list_findings(
            branches,
        ),
        (forall|i: int| 0 <= i < branches.len() ==> (#[trigger] branches[i]).minimum_len is None)
            ==> tree_findings(node) == list_findings(branches),
{
    lemma_shortest(node, branches, len);
    assert(Seq::<CulpritModel>::empty() + list_findings(branches) =~= list_findings(branches));
}

proof fn lemma_shortest(node: NodeModel, branches: Seq<NodeModel>, len: nat)
    requires
        node.shape == ShapeModel::Alternation(branches),
    ensures
        has_shortest_branch(node, len) <==> shortest_branch(branches) is Some && shortest_branch(
            branches,
        )->0 == len,
        (forall|i: int| 0 <= i < branches.len() ==> (#[trigger] branches[i]).minimum_len is None)
            <==> shortest_branch(branches) is None,
{
    law_shortest_branch_is_the_minimum(branches);
    if has_shortest_branch(node, len) {
        let i = choose|i: int|
            0 <= i < branches.len() && (#[trigger] branches[i]).minimum_len is Some
                && branches[i].minimum_len->0 == len;
        assert(branches[i].minimum_len is Some);
        assert(shortest_branch(branches) is Some);
        let shortest = shortest_branch(branches)->0;
        let j = choose|j: int|
            0 <= j < branches.len() && (#[trigger] branches[j]).minimum_len == Some(shortest);
        assert(len <= branches[j].minimum_len->0);
    }
    if shortest_branch(branches) is Some && shortest_branch(branches)->0 == len {
        let j = choose|j: int|
            0 <= j < branches.len() && (#[trigger] branches[j]).minimum_len
                == shortest_branch(branches);
        assert(branches[j].minimum_len is Some && branches[j].minimum_len->0 == len);
    }
}

/// The walk looks through groups, goes through a concatenation from left to
/// right, and reports nothing of anything else.
pub proof fn law_walk_of_other_expressions(node: NodeModel)
    ensures
        match node.shape {
            ShapeModel::Capture(sub) => tree_findings(node) == tree_findings(*sub),
            ShapeModel::Concat(subs) => tree_findings(node) == list_findings(subs),
            ShapeModel::Empty => tree_findings(node).len() == 0,
            ShapeModel::Literal(_) => tree_findings(node).len() == 0,
            ShapeModel::Class(_) => tree_findings(node).len() == 0,
            ShapeModel::Look => tree_findings(node).len() == 0,
            _ => true,
        },
{
}

/// Going through a list is going through its parts one after the other, and
/// going through a list of one is going through that one.
pub proof fn law_walk_of_lists(a: Seq<NodeModel>, b: Seq<NodeModel>, one: NodeModel)
    ensures
        list_findings(a + b) == list_findings(a) + list_findings(b),
        list_findings(seq![one]) == tree_findings(one),
        list_findings(Seq::<NodeModel>::empty()).len() == 0,
    decreases b.len(),
{
    assert(seq![one].drop_last() =~= Seq::empty());
    assert(list_findings(Seq::<NodeModel>::empty()) =~= Seq::empty());
    assert(list_findings(seq![one]) =~= tree_findings(one));
    if b.len() == 0 {
        assert(a + b =~= a);
        assert(list_findings(a) + list_findings(b) =~= list_findings(a));
    } else {
        law_walk_of_lists(a, b.drop_last(), one);
        assert((a + b).drop_last() =~= a + b.drop_last());
        assert(list_findings(a + b) =~= list_findings(a) + list_findings(b));
    }
}

/// The regions of the given places of a concatenation.
pub open spec fn regions_at(subs: Seq<NodeModel>, places: Seq<int>) -> Seq<CulpritModel> {
    Seq::new(
        places.len(),
        |k: int| CulpritModel::ShortFixedRegion { len: literal_len(subs[places[k]]) },
    )
}

/// The places among the first `n`, in ascending order, with a short literal
/// next to a gap.
pub open spec fn short_places(subs: Seq<NodeModel>, places: Seq<int>, n: int) -> bool {
    &&& forall|k: int|
        0 <= k < places.len() ==> 0 <= #[trigger] places[k] < n && short_literal_at(subs, places[k])
    &&& forall|j: int, k: int|
        0 <= j < k < places.len() ==> #[trigger] places[j] < #[trigger] places[k]
    &&& forall|i: int| 0 <= i < n && #[trigger] short_literal_at(subs, i) ==> places.contains(i)
}

proof fn lemma_gap(node: NodeModel)
    requires
        well_formed(node),
    ensures
        gap(node) == is_any_byte_gap(node),
{
    lemma_class_size(node);
}

proof fn lemma_regions(subs: Seq<NodeModel>, n: nat) -> (places: Seq<int>)
    requires
        n <= subs.len(),
        forall|i: int| 0 <= i < subs.len() ==> well_formed(#[trigger] subs[i]),
    ensures
        short_places(subs, places, n as int),
        fixed_region_findings(subs, n) == regions_at(subs, places),
    decreases n,
{
    if n == 0 {
        assert(fixed_region_findings(subs, n) =~= regions_at(subs, Seq::empty()));
        Seq::empty()
    } else {
        let m = n - 1;
        let before = lemma_regions(subs, m as nat);
        if m > 0 {
            lemma_gap(subs[m - 1]);
        }
        if m + 1 < subs.len() {
            lemma_gap(subs[m + 1]);
        }
        if short_literal_at(subs, m) {
            let places = before.push(m);
            assert forall|i: int| 0 <= i < n && #[trigger] short_literal_at(
                subs,
                i,
            ) implies places.contains(i) by {
                if i < m {
                    let k = before.index_of(i);
                    assert(before.contains(i));
                    assert(places[k] == i);
                } else {
                    assert(places[places.len() - 1] == i);
                }
            }
            assert(regions_at(subs, places) =~= regions_at(subs, before) + seq![
                CulpritModel::ShortFixedRegion { len: literal_len(subs[m]) },
            ]);
            places
        } else {
            assert(fixed_region_findings(subs, n) =~= fixed_region_findings(subs, m as nat));
            before
        }
    }
}

/// The findings of a pattern: first a repetition without bound at its start and
/// one at its end, then those of the walk, then one for each short literal
/// next to a gap, from left to right.
pub proof fn law_findings_come_in_three_passes(node: NodeModel)
    requires
        well_formed(node),
    ensures
        match node.shape {
            ShapeModel::Concat(subs) => exists|places: Seq<int>| #[trigger]
                short_places(subs, places, subs.len() as int) && all_findings(node) == (if subs.len()
                    > 0 && repeats_without_bound(subs[0]) {
                    seq![
                        CulpritModel::UnboundedRepetitionAtEdge {
                            leading: true,
                            expr: subs[0].text,
                        },
                    ]
                } else {
                    Seq::empty()
                }) + (if subs.len() > 0 && repeats_without_bound(subs[subs.len() - 1]) {
                    seq![
                        CulpritModel::UnboundedRepetitionAtEdge {
                            leading: false,
                            expr: subs[subs.len() - 1].text,
                        },
                    ]
                } else {
                    Seq::empty()
                }) + tree_findings(node) + regions_at(subs, places),
            _ => all_findings(node) == (if repeats_without_bound(node) {
                seq![
                    CulpritModel::UnboundedRepetitionAtEdge { leading: true, expr: node.text },
                ]
            } else {
                Seq::empty()
            }) + tree_findings(node),
        },
{
    match node.shape {
        ShapeModel::Concat(subs) => {
            assert forall|i: int| 0 <= i < subs.len() implies well_formed(#[trigger] subs[i]) by {}
            let places = lemma_regions(subs, subs.len());
            assert(short_places(subs, places, subs.len() as int));
            if subs.len() > 0 {
                assert(subs.first() == subs[0]);
                assert(subs.last() == subs[subs.len() - 1]);
            }
            assert(all_findings(node) =~= edge_findings(node) + tree_findings(node) + regions_at(
                subs,
                places,
            ));
        },
        _ => {
            assert(all_findings(node) =~= edge_findings(node) + tree_findings(node));
        },
    }
}

/// The findings about the edges are a repetition without bound at the start and
/// one at the end, and nothing else.
pub proof fn law_findings_at_the_edges(node: NodeModel)
    ensures
        match node.shape {
            ShapeModel::Concat(subs) => {
                let n = subs.len() as int;
                let starts = n > 0 && repeats_without_bound(subs[0]);
                let ends = n > 0 && repeats_without_bound(subs[n - 1]);
                let first = CulpritModel::UnboundedRepetitionAtEdge {
                    leading: true,
                    expr: subs[0].text,
                };
                let last = CulpritModel::UnboundedRepetitionAtEdge {
                    leading: false,
                    expr: subs[n - 1].text,
                };
                &&& starts && ends ==> edge_findings(node) == seq![first, last]
                &&& starts && !ends ==> edge_findings(node) == seq![first]
                &&& !starts && ends ==> edge_findings(node) == seq![last]
                &&& !starts && !ends ==> edge_findings(node).len() == 0
            },
            _ => if repeats_without_bound(node) {
                edge_findings(node) == seq![
                    CulpritModel::UnboundedRepetitionAtEdge { leading: true, expr: node.text },
                ]
            } else {
                edge_findings(node).len() == 0
            },
        },
{
    if let ShapeModel::Concat(subs) = node.shape {
        if subs.len() > 0 {
            let n = subs.len() as int;
            assert(subs.first() == subs[0] && subs.last() == subs[n - 1]);
            let starts = repeats_without_bound(subs[0]);
            let ends = repeats_without_bound(subs[n - 1]);
            let first = CulpritModel::UnboundedRepetitionAtEdge {
                leading: true,
                expr: subs[0].text,
            };
            let last = CulpritModel::UnboundedRepetitionAtEdge {
                leading: false,
                expr: subs[n - 1].text,
            };
            if starts && ends {
                assert(edge_findings(node) =~= seq![first, last]);
            } else if starts {
                assert(edge_findings(node) =~= seq![first]);
            } else if ends {
                assert(edge_findings(node) =~= seq![last]);
            }
        }
    }
}

/// The findings about short literals next to gaps, one for each, from left to
/// right. Only a concatenation has any.
pub proof fn law_short_literals_in_order(node: NodeModel)
    requires
        well_formed(node),
    ensures
        match node.shape {
            ShapeModel::Concat(subs) => exists|places: Seq<int>| #[trigger]
                short_places(subs, places, subs.len() as int) && region_findings(node)
                    == regions_at(subs, places),
            _ => region_findings(node).len() == 0,
        },
{
    if let ShapeModel::Concat(subs) = node.shape {
        assert forall|i: int| 0 <= i < subs.len() implies well_formed(#[trigger] subs[i]) by {}
        let places = lemma_regions(subs, subs.len());
        assert(short_places(subs, places, subs.len() as int));
    }
}

/// A large class is reported exactly for the repetitions, anywhere in the
/// pattern and with any bounds, of a class with at least 16 and fewer than 250
/// elements, and with the numbers and the text of that repetition.
pub proof fn law_every_large_class_is_reported(
    node: NodeModel,
    class_size: nat,
    min_rep: nat,
    expr: Seq<char>,
)
    requires
        well_formed(node),
    ensures
        all_findings(node).contains(
            CulpritModel::LargeClassRepetition { class_size, min_rep, expr },
        ) <==> 16 <= class_size < 250 && exists|part: NodeModel| #[trigger]
            occurs_in(part, node) && part.text == expr && repeats_a_class(
                part,
                min_rep,
                class_size,
            ),
{
    let c = CulpritModel::LargeClassRepetition { class_size, min_rep, expr };
    lemma_all_findings_contain(node, c);
    lemma_kinds_of_findings(node, c);
    law_walk_reports_every_expression(node, c);
    assert forall|part: NodeModel| #[trigger] occurs_in(part, node) implies own_findings(
        part,
    ).contains(c) == (16 <= class_size < 250 && part.text == expr && repeats_a_class(
        part,
        min_rep,
        class_size,
    )) by {
        lemma_part_well_formed(part, node);
        lemma_class_size(part);
        lemma_own_findings_contain(part, c);
        if 16 <= class_size < 250 && part.text == expr && repeats_a_class(
            part,
            min_rep,
            class_size,
        ) {
            assert(large_class_finding(part)[0] == c);
        }
    }
    if all_findings(node).contains(c) {
        let part = choose|part: NodeModel| #[trigger]
            occurs_in(part, node) && own_findings(part).contains(c);
        assert(occurs_in(part, node) && repeats_a_class(part, min_rep, class_size));
    }
    if 16 <= class_size < 250 && exists|part: NodeModel| #[trigger]
        occurs_in(part, node) && part.text == expr && repeats_a_class(part, min_rep, class_size) {
        let part = choose|part: NodeModel| #[trigger]
            occurs_in(part, node) && part.text == expr && repeats_a_class(
                part,
                min_rep,
                class_size,
            );
        assert(own_findings(part).contains(c));
    }
}

/// Nesting is reported exactly for the repetitions without bound, anywhere in
/// the pattern, that have another one below them.
pub proof fn law_every_nesting_is_reported(node: NodeModel, expr: Seq<char>)
    ensures
        all_findings(node).contains(CulpritModel::NestedUnboundedRepetition { expr })
            <==> exists|part: NodeModel| #[trigger]
            occurs_in(part, node) && part.text == expr && nests_repetitions(part),
{
    let c = CulpritModel::NestedUnboundedRepetition { expr };
    lemma_all_findings_contain(node, c);
    lemma_kinds_of_findings(node, c);
    law_walk_reports_every_expression(node, c);
    assert forall|part: NodeModel| #[trigger] occurs_in(part, node) implies own_findings(
        part,
    ).contains(c) == (part.text == expr && nests_repetitions(part)) by {
        lemma_own_findings_contain(part, c);
        if let ShapeModel::Repetition { sub, .. } = part.shape {
            law_unbounded_repetitions(*sub);
        }
        if part.text == expr && nests_repetitions(part) {
            assert(nested_finding(part)[0] == c);
        }
    }
    if all_findings(node).contains(c) {
        let part = choose|part: NodeModel| #[trigger]
            occurs_in(part, node) && own_findings(part).contains(c);
        assert(occurs_in(part, node) && nests_repetitions(part));
    }
    if exists|part: NodeModel| #[trigger]
        occurs_in(part, node) && part.text == expr && nests_repetitions(part) {
        let part = choose|part: NodeModel| #[trigger]
            occurs_in(part, node) && part.text == expr && nests_repetitions(part);
        assert(own_findings(part).contains(c));
    }
}

/// A short branch is reported exactly for the alternations, anywhere in the
/// pattern, whose shortest branch has fewer than four bytes.
pub proof fn law_every_short_branch_is_reported(
    node: NodeModel,
    min_branch_len: nat,
    expr: Seq<char>,
)
    ensures
        all_findings(node).contains(CulpritModel::ShortAlternationBranch { min_branch_len, expr })
            <==> min_branch_len < 4 && exists|part: NodeModel| #[trigger]
            occurs_in(part, node) && part.text == expr && has_shortest_branch(part, min_branch_len),
{
    let c = CulpritModel::ShortAlternationBranch { min_branch_len, expr };
    lemma_all_findings_contain(node, c);
    lemma_kinds_of_findings(node, c);
    law_walk_reports_every_expression(node, c);
    assert forall|part: NodeModel| #[trigger] occurs_in(part, node) implies own_findings(
        part,
    ).contains(c) == (min_branch_len < 4 && part.text == expr && has_shortest_branch(
        part,
        min_branch_len,
    )) by {
        lemma_own_findings_contain(part, c);
        if let ShapeModel::Alternation(branches) = part.shape {
            lemma_shortest(part, branches, min_branch_len);
        }
        if min_branch_len < 4 && part.text == expr && has_shortest_branch(part, min_branch_len) {
            assert(short_branch_finding(part)[0] == c);
        }
    }
    if all_findings(node).contains(c) {
        let part = choose|part: NodeModel| #[trigger]
            occurs_in(part, node) && own_findings(part).contains(c);
        assert(occurs_in(part, node) && has_shortest_branch(part, min_branch_len));
    }
    if min_branch_len < 4 && exists|part: NodeModel| #[trigger]
        occurs_in(part, node) && part.text == expr && has_shortest_branch(part, min_branch_len) {
        let part = choose|part: NodeModel| #[trigger]
            occurs_in(part, node) && part.text == expr && has_shortest_branch(part, min_branch_len);
        assert(own_findings(part).contains(c));
    }
}

} // verus!
