//! Terminal colours.
//!
//! Whether a text really gets its ANSI codes depends on the process-wide
//! switch of `yansi`, which its functions `enable`, `disable` and `whenever`
//! set, and by default on the terminal.
use vstd::prelude::*;
use yansi::Color::{Cyan, Red};
use yansi::Paint;

verus! {

/// The text with an ANSI code before it, and a reset after it.
pub open spec fn with_code(code: Seq<char>, text: Seq<char>) -> Seq<char> {
    code + text + "\x1B[0m"@
}

/// What painting a text with an ANSI code can give: the text with the code, or
/// the bare text where painting is disabled.
pub open spec fn painted_with(code: Seq<char>, text: Seq<char>, painted: Seq<char>) -> bool {
    painted == with_code(code, text) || painted == text
}

/// Outcomes of painting a text in bold.
pub open spec fn is_bold(text: Seq<char>, painted: Seq<char>) -> bool {
    painted_with("\x1B[1m"@, text, painted)
}

/// Outcomes of painting a text in bold red.
pub open spec fn is_red_bold(text: Seq<char>, painted: Seq<char>) -> bool {
    painted_with("\x1B[1;31m"@, text, painted)
}

/// Outcomes of painting a text in cyan.
pub open spec fn is_cyan(text: Seq<char>, painted: Seq<char>) -> bool {
    painted_with("\x1B[36m"@, text, painted)
}

/// Displays what `yansi::Paint::bold` returns for the text: `ESC[1m`, the text
/// and `ESC[0m` if painting is enabled, the text alone if not.
#[verifier::external_body]
pub(crate) fn bold(text: &str) -> (painted: String)
    ensures
        is_bold(text@, painted@),
{
    text.bold().to_string()
}

/// Displays what `yansi::Paint::paint` with the colour red and then
/// `yansi::Painted::bold` return for the text: `ESC[1;31m`, the text and
/// `ESC[0m` if painting is enabled, the text alone if not.
#[verifier::external_body]
pub(crate) fn red_bold(text: &str) -> (painted: String)
    ensures
        is_red_bold(text@, painted@),
{
    text.paint(Red).bold().to_string()
}

/// Displays what `yansi::Paint::paint` with the colour cyan returns for the
/// text: `ESC[36m`, the text and `ESC[0m` if painting is enabled, the text
/// alone if not.
#[verifier::external_body]
pub(crate) fn cyan(text: &str) -> (painted: String)
    ensures
        is_cyan(text@, painted@),
{
    text.paint(Cyan).to_string()
}

} // verus!
