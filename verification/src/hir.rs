//! The parts of a pattern's high-level intermediate representation (HIR) that
//! the culprit analysis reads, held as plain values.
//!
//! The patterns are parsed into [`regex_syntax::hir::Hir`] values. [`read_hir`]
//! walks such a value and copies what the analysis needs into a [`HirNode`].

use regex_syntax::hir::{Class, Hir, HirKind};
use vstd::prelude::*;

verus! {

/// `regex_syntax::hir::Hir`, an opaque expression tree.
#[verifier::external_type_specification]
#[verifier::external_body]
pub struct ExHir(Hir);

/// `regex_syntax::hir::Class`, an opaque character class.
#[verifier::external_type_specification]
#[verifier::external_body]
pub struct ExClass(Class);

/// The largest Unicode code point.
pub const MAX_CODE_POINT: u32 = 0x10FFFF;

/// A range of class elements, both ends included.
#[derive(Clone, Copy, Debug, PartialEq, Eq, Structural)]
pub struct ClassRange {
    pub start: u32,
    pub end: u32,
}

/// A node of a pattern's expression tree.
#[derive(Debug)]
pub struct HirNode {
    /// The expression written out as a regular expression.
    pub text: String,
    /// Length in bytes of the shortest string that the expression matches.
    /// `None` if it matches nothing.
    pub minimum_len: Option<usize>,
    /// What kind of expression this is, with its sub-expressions.
    pub shape: HirShape,
}

/// The kinds of expressions.
#[derive(Debug)]
pub enum HirShape {
    /// The empty expression.
    Empty,
    /// A string of bytes matched literally.
    Literal(Vec<u8>),
    /// A character class, as ascending disjoint ranges.
    Class(Vec<ClassRange>),
    /// A look-around assertion.
    Look,
    /// A repetition. It is unbounded if `max` is `None`.
    Repetition { min: u32, max: Option<u32>, sub: Box<HirNode> },
    /// A capturing group.
    Capture(Box<HirNode>),
    /// A concatenation.
    Concat(Vec<HirNode>),
    /// An alternation.
    Alternation(Vec<HirNode>),
}

/// The mathematical value of a [`HirNode`].
pub struct NodeModel {
    pub text: Seq<char>,
    pub minimum_len: Option<usize>,
    pub shape: ShapeModel,
}

/// The mathematical value of a [`HirShape`].
pub enum ShapeModel {
    Empty,
    Literal(Seq<u8>),
    Class(Seq<ClassRange>),
    Look,
    Repetition { min: u32, max: Option<u32>, sub: Box<NodeModel> },
    Capture(Box<NodeModel>),
    Concat(Seq<NodeModel>),
    Alternation(Seq<NodeModel>),
}

impl View for HirNode {
    type V = NodeModel;

    open spec fn view(&self) -> NodeModel {
        node_model(*self)
    }
}

/// The mathematical value of a node.
pub open spec fn node_model(node: HirNode) -> NodeModel
    decreases node,
{
    NodeModel {
        text: node.text@,
        minimum_len: node.minimum_len,
        shape: match node.shape {
            HirShape::Empty => ShapeModel::Empty,
            HirShape::Literal(bytes) => ShapeModel::Literal(bytes@),
            HirShape::Class(ranges) => ShapeModel::Class(ranges@),
            HirShape::Look => ShapeModel::Look,
            HirShape::Repetition { min, max, sub } => {
                ShapeModel::Repetition { min, max, sub: Box::new(node_model(*sub)) }
            },
            HirShape::Capture(sub) => ShapeModel::Capture(Box::new(node_model(*sub))),
            HirShape::Concat(subs) => ShapeModel::Concat(
                Seq::new(
                    subs@.len(),
                    |i: int| if 0 <= i < subs@.len() { node_model(subs@[i]) } else { arbitrary() },
                ),
            ),
            HirShape::Alternation(subs) => ShapeModel::Alternation(
                Seq::new(
                    subs@.len(),
                    |i: int| if 0 <= i < subs@.len() { node_model(subs@[i]) } else { arbitrary() },
                ),
            ),
        },
    }
}

/// The mathematical values of a list of nodes, in order.
pub open spec fn node_models(nodes: Seq<HirNode>) -> Seq<NodeModel> {
    Seq::new(nodes.len(), |i: int| node_model(nodes[i]))
}

/// The value of a node, spelled out in terms of the values of its
/// sub-expressions.
pub(crate) proof fn lemma_node_model(node: HirNode)
    ensures
        node@.shape == (match node.shape {
            HirShape::Empty => ShapeModel::Empty,
            HirShape::Literal(bytes) => ShapeModel::Literal(bytes@),
            HirShape::Class(ranges) => ShapeModel::Class(ranges@),
            HirShape::Look => ShapeModel::Look,
            HirShape::Repetition { min, max, sub } => {
                ShapeModel::Repetition { min, max, sub: Box::new(sub@) }
            },
            HirShape::Capture(sub) => ShapeModel::Capture(Box::new(sub@)),
            HirShape::Concat(subs) => ShapeModel::Concat(node_models(subs@)),
            HirShape::Alternation(subs) => ShapeModel::Alternation(node_models(subs@)),
        }),
{
    match node.shape {
        HirShape::Concat(subs) => {
            assert(node@.shape->Concat_0 =~= node_models(subs@));
        },
        HirShape::Alternation(subs) => {
            assert(node@.shape->Alternation_0 =~= node_models(subs@));
        },
        _ => {},
    }
}

/// The ranges of a class ascend, do not overlap, and hold code points.
pub open spec fn canonical(ranges: Seq<ClassRange>) -> bool {
    &&& forall|i: int|
        0 <= i < ranges.len() ==> (#[trigger] ranges[i]).start <= ranges[i].end <= MAX_CODE_POINT
    &&& forall|i: int, j: int|
        0 <= i < j < ranges.len() ==> (#[trigger] ranges[i]).end < (#[trigger] ranges[j]).start
}

/// Every class in the tree has canonical ranges.
pub open spec fn well_formed(node: NodeModel) -> bool
    decreases node,
{
    match node.shape {
        ShapeModel::Class(ranges) => canonical(ranges),
        ShapeModel::Repetition { sub, .. } => well_formed(*sub),
        ShapeModel::Capture(sub) => well_formed(*sub),
        ShapeModel::Concat(subs) => forall|i: int|
            0 <= i < subs.len() ==> well_formed(#[trigger] subs[i]),
        ShapeModel::Alternation(subs) => forall|i: int|
            0 <= i < subs.len() ==> well_formed(#[trigger] subs[i]),
        _ => true,
    }
}

/// What a `regex_syntax::hir::Hir` holds: the tree that its accessors expose.
pub uninterp spec fn hir_model(hir: Hir) -> NodeModel;

/// What a `regex_syntax::hir::Class` holds: its ranges.
pub uninterp spec fn class_model(class: Class) -> Seq<ClassRange>;

/// One level of a `regex_syntax::hir::Hir`, with its sub-expressions still in
/// their own form.
pub(crate) enum HirParts<'a> {
    Empty,
    Literal(&'a [u8]),
    Class(&'a Class),
    Look,
    Repetition { min: u32, max: Option<u32>, sub: &'a Hir },
    Capture(&'a Hir),
    Concat(&'a [Hir]),
    Alternation(&'a [Hir]),
}

/// Each of `hirs` holds the corresponding one of `models`.
pub(crate) open spec fn hold_each(hirs: Seq<Hir>, models: Seq<NodeModel>) -> bool {
    &&& hirs.len() == models.len()
    &&& forall|i: int| 0 <= i < hirs.len() ==> hir_model(#[trigger] hirs[i]) == models[i]
}

/// `parts` is one level of a tree of the given shape.
pub(crate) open spec fn is_level_of(parts: HirParts, shape: ShapeModel) -> bool {
    match parts {
        HirParts::Empty => shape is Empty,
        HirParts::Literal(bytes) => shape == ShapeModel::Literal(bytes@),
        HirParts::Class(class) => shape == ShapeModel::Class(class_model(*class)),
        HirParts::Look => shape is Look,
        HirParts::Repetition { min, max, sub } => shape == (ShapeModel::Repetition {
            min,
            max,
            sub: Box::new(hir_model(*sub)),
        }),
        HirParts::Capture(sub) => shape == ShapeModel::Capture(Box::new(hir_model(*sub))),
        HirParts::Concat(subs) => shape matches ShapeModel::Concat(models) && hold_each(
            subs@,
            models,
        ),
        HirParts::Alternation(subs) => shape matches ShapeModel::Alternation(models) && hold_each(
            subs@,
            models,
        ),
    }
}

/// Calls `regex_syntax::hir::Hir::kind`, which returns the kind of expression
/// at the root of the tree with its sub-expressions. Each variant is handed
/// out with the fields that the analysis reads; which assertion a look-around
/// makes, the greediness of a repetition, and the index and name of a group
/// are left out.
#[verifier::external_body]
pub(crate) fn hir_parts(hir: &Hir) -> (parts: HirParts<'_>)
    ensures
        is_level_of(parts, hir_model(*hir).shape),
{
    match hir.kind() {
        HirKind::Empty => HirParts::Empty,
        HirKind::Literal(lit) => HirParts::Literal(&lit.0),
        HirKind::Class(class) => HirParts::Class(class),
        HirKind::Look(_) => HirParts::Look,
        HirKind::Repetition(rep) => {
            HirParts::Repetition { min: rep.min, max: rep.max, sub: &rep.sub }
        },
        HirKind::Capture(cap) => HirParts::Capture(&cap.sub),
        HirKind::Concat(subs) => HirParts::Concat(subs),
        HirKind::Alternation(subs) => HirParts::Alternation(subs),
    }
}

/// Calls the `Display` implementation of `regex_syntax::hir::Hir` through
/// `to_string`, which writes the expression out as a regular expression.
#[verifier::external_body]
pub(crate) fn hir_text(hir: &Hir) -> (text: String)
    ensures
        text@ == hir_model(*hir).text,
{
    hir.to_string()
}

/// Calls `regex_syntax::hir::Properties::minimum_len` on the expression's
/// properties: the length of the shortest string that it matches, or `None`
/// if it matches nothing.
#[verifier::external_body]
pub(crate) fn hir_minimum_len(hir: &Hir) -> (len: Option<usize>)
    ensures
        len == hir_model(*hir).minimum_len,
{
    hir.properties().minimum_len()
}

/// Calls `ranges` of `regex_syntax::hir::ClassUnicode` or of
/// `regex_syntax::hir::ClassBytes`. Both keep their ranges in canonical
/// ordering: ascending, and neither overlapping nor adjacent.
#[verifier::external_body]
pub(crate) fn class_ranges(class: &Class) -> (ranges: Vec<ClassRange>)
    ensures
        ranges@ == class_model(*class),
        canonical(ranges@),
{
    match class {
        Class::Unicode(c) => c.ranges().iter()
            .map(|r| ClassRange { start: u32::from(r.start()), end: u32::from(r.end()) })
            .collect(),
        Class::Bytes(c) => c.ranges().iter()
            .map(|r| ClassRange { start: u32::from(r.start()), end: u32::from(r.end()) })
            .collect(),
    }
}

/// Copies what the analysis reads of `hir` into a [`HirNode`].
pub fn read_hir(hir: &Hir) -> (node: HirNode)
    ensures
        node@ == hir_model(*hir),
        well_formed(node@),
    decreases hir_model(*hir),
{
    let ghost model = hir_model(*hir);
    let text = hir_text(hir);
    let minimum_len = hir_minimum_len(hir);
    let shape = match hir_parts(hir) {
        HirParts::Empty => HirShape::Empty,
        HirParts::Literal(bytes) => HirShape::Literal(vstd::slice::slice_to_vec(bytes)),
        HirParts::Class(class) => HirShape::Class(class_ranges(class)),
        HirParts::Look => HirShape::Look,
        HirParts::Repetition { min, max, sub } => {
            assert(decreases_to!(model => *model.shape->sub));
            HirShape::Repetition { min, max, sub: Box::new(read_hir(sub)) }
        },
        HirParts::Capture(sub) => {
            assert(decreases_to!(model => *model.shape->Capture_0));
            HirShape::Capture(Box::new(read_hir(sub)))
        },
        HirParts::Concat(subs) => HirShape::Concat(
            read_hirs(subs, Ghost(model.shape->Concat_0)),
        ),
        HirParts::Alternation(subs) => HirShape::Alternation(
            read_hirs(subs, Ghost(model.shape->Alternation_0)),
        ),
    };
    let node = HirNode { text, minimum_len, shape };
    proof {
        lemma_node_model(node);
        assert(node@ == model);
    }
    node
}

/// Copies each of `hirs`, in order.
fn read_hirs(hirs: &[Hir], models: Ghost<Seq<NodeModel>>) -> (nodes: Vec<HirNode>)
    requires
        hold_each(hirs@, models@),
    ensures
        node_models(nodes@) == models@,
        forall|i: int| 0 <= i < models@.len() ==> well_formed(#[trigger] models@[i]),
    decreases models@,
{
    let mut nodes: Vec<HirNode> = Vec::new();
    let mut i: usize = 0;
    while i < hirs.len()
        invariant
            hold_each(hirs@, models@),
            i <= hirs.len(),
            nodes@.len() == i,
            forall|j: int| 0 <= j < i ==> node_model(#[trigger] nodes@[j]) == models@[j],
            forall|j: int| 0 <= j < i ==> #[trigger] well_formed(models@[j]),
        decreases hirs.len() - i,
    {
        nodes.push(read_hir(&hirs[i]));
        i += 1;
    }
    assert(node_models(nodes@) =~= models@);
    nodes
}

} // verus!
