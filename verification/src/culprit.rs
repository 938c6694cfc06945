//! Findings about the sub-expressions that hurt atom extraction.

use vstd::prelude::*;

verus! {

/// A sub-expression identified as a likely cause of poor atom extraction.
#[derive(Clone, Debug, PartialEq, Eq)]
pub enum Culprit {
    /// An unbounded repetition (`.*`, `.+`, `\w*`, ...) at the start or end
    /// of the pattern.
    UnboundedRepetitionAtEdge {
        /// `true` if the repetition is at the leading edge; `false` if trailing.
        leading: bool,
        /// The repetition sub-expression, written out as a regular
        /// expression from its HIR.
        expr: String,
    },
    /// A repetition of a large character class, e.g. `[A-Za-z]{2,}`. Forces
    /// every combination of class elements to become an atom.
    LargeClassRepetition {
        /// Number of elements in the character class.
        class_size: usize,
        /// Minimum repetition count.
        min_rep: u32,
        /// The repetition sub-expression, written out as a regular
        /// expression from its HIR.
        expr: String,
    },
    /// An alternation where the shortest branch caps the minimum atom
    /// length, e.g. `(foobar|ab)`.
    ShortAlternationBranch {
        /// Length (in bytes) of the shortest branch in the alternation.
        min_branch_len: usize,
        /// The alternation sub-expression, written out as a regular
        /// expression from its HIR.
        expr: String,
    },
    /// Nested unbounded repetitions, e.g. `(\w+)*`.
    NestedUnboundedRepetition {
        /// The outer repetition sub-expression, written out as a regular
        /// expression from its HIR.
        expr: String,
    },
    /// A literal region shorter than the desired atom size sitting next to
    /// an arbitrary gap, typical of hex patterns like `{ 00 [1-10] 01 }`.
    ShortFixedRegion {
        /// Length of the fixed literal region in bytes.
        len: usize,
    },
}

/// The mathematical value of a [`Culprit`].
pub enum CulpritModel {
    UnboundedRepetitionAtEdge { leading: bool, expr: Seq<char> },
    LargeClassRepetition { class_size: nat, min_rep: nat, expr: Seq<char> },
    ShortAlternationBranch { min_branch_len: nat, expr: Seq<char> },
    NestedUnboundedRepetition { expr: Seq<char> },
    ShortFixedRegion { len: nat },
}

impl View for Culprit {
    type V = CulpritModel;

    open spec fn view(&self) -> CulpritModel {
        match *self {
            Culprit::UnboundedRepetitionAtEdge { leading, expr } => {
                CulpritModel::UnboundedRepetitionAtEdge { leading, expr: expr@ }
            },
            Culprit::LargeClassRepetition { class_size, min_rep, expr } => {
                CulpritModel::LargeClassRepetition {
                    class_size: class_size as nat,
                    min_rep: min_rep as nat,
                    expr: expr@,
                }
            },
            Culprit::ShortAlternationBranch { min_branch_len, expr } => {
                CulpritModel::ShortAlternationBranch {
                    min_branch_len: min_branch_len as nat,
                    expr: expr@,
                }
            },
            Culprit::NestedUnboundedRepetition { expr } => {
                CulpritModel::NestedUnboundedRepetition { expr: expr@ }
            },
            Culprit::ShortFixedRegion { len } => CulpritModel::ShortFixedRegion { len: len as nat },
        }
    }
}

/// The mathematical values of a list of culprits, in order.
pub open spec fn culprit_models(culprits: Seq<Culprit>) -> Seq<CulpritModel> {
    culprits.map_values(|c: Culprit| c@)
}

} // verus!
