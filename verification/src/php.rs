//! Detection of PHP code in arbitrary data.
//!
//! PHP is looked for anywhere in the data, also where it was appended to or
//! embedded in something else. `<?=` and `<?php` are proof enough. A bare `<?`
//! counts only if it does not start an XML declaration and if something that
//! only PHP would have follows within [`WEAK_WINDOW`] bytes.
use vstd::prelude::*;
use vstd::slice::slice_subrange;
use vstd::string::*;

verus! {

/// Maximum number of bytes searched after a bare `<?` for a PHP token.
pub const WEAK_WINDOW: usize = 256;

/// The marker that every PHP open tag starts with.
pub const OPEN_MARKER: &'static str = "<?";

/// PHP superglobals. PHP requires the exact casing.
pub const PHP_SUPERGLOBALS: [&'static str; 9] = [
    "$_GET",
    "$_POST",
    "$_REQUEST",
    "$_SERVER",
    "$_COOKIE",
    "$_FILES",
    "$_SESSION",
    "$_ENV",
    "$GLOBALS",
];

/// PHP functions and keywords commonly seen in webshells. PHP ignores the case
/// of these names, so they are looked for in the lowercased data, and every
/// entry is in lower case.
pub const PHP_TOKENS_CI: [&'static str; 17] = [
    "eval",
    "assert",
    "system",
    "exec",
    "shell_exec",
    "passthru",
    "base64_decode",
    "gzinflate",
    "str_rot13",
    "preg_replace",
    "create_function",
    "call_user_func",
    "echo",
    "function",
    "print",
    "require",
    "include",
];

/// The fields that a rule can read from the module.
#[derive(Clone, Copy, Debug, PartialEq, Eq)]
pub struct Php {
    /// Whether PHP code was found in the scanned data.
    pub is_php: Option<bool>,
}

/// The bytes of an ASCII text.
pub open spec fn ascii(text: &str) -> Seq<u8> {
    text@.map_values(|c: char| c as u8)
}

/// `pattern` stands in `data` at `at`.
pub open spec fn found_at(data: Seq<u8>, pattern: Seq<u8>, at: int) -> bool {
    &&& 0 <= at
    &&& at + pattern.len() <= data.len()
    &&& forall|i: int| 0 <= i < pattern.len() ==> data[at + i] == #[trigger] pattern[i]
}

/// `pattern` stands somewhere in `data`.
pub open spec fn found_in(data: Seq<u8>, pattern: Seq<u8>) -> bool {
    exists|at: int| found_at(data, pattern, at)
}

/// The lower-case form of an ASCII letter; any other byte as it is.
pub open spec fn lower(b: u8) -> u8 {
    if 'A' as u8 <= b <= 'Z' as u8 {
        (b + 32) as u8
    } else {
        b
    }
}

/// The data with its ASCII letters in lower case.
pub open spec fn lowercase(data: Seq<u8>) -> Seq<u8> {
    data.map_values(|b: u8| lower(b))
}

/// Whether a byte can continue a PHP identifier.
pub open spec fn identifier_byte(b: u8) -> bool {
    ||| 'a' as u8 <= b <= 'z' as u8
    ||| 'A' as u8 <= b <= 'Z' as u8
    ||| '0' as u8 <= b <= '9' as u8
    ||| b == '_' as u8
}

/// The data starts with the lower-case `keyword`, in any casing.
pub open spec fn starts_with_keyword(data: Seq<u8>, keyword: Seq<u8>) -> bool {
    &&& keyword.len() <= data.len()
    &&& lowercase(data.take(keyword.len() as int)) == keyword
}

pub open spec fn has_superglobal(window: Seq<u8>) -> bool {
    exists|i: int|
        0 <= i < PHP_SUPERGLOBALS.len() && found_in(window, ascii(#[trigger] PHP_SUPERGLOBALS[i]))
}

pub open spec fn has_function(window: Seq<u8>) -> bool {
    exists|i: int|
        0 <= i < PHP_TOKENS_CI.len() && found_in(
            lowercase(window),
            ascii(#[trigger] PHP_TOKENS_CI[i]),
        )
}

/// What follows `<?` makes it `<?=`, or `<?php` in any casing and not as the
/// start of a longer word.
pub open spec fn strong_signal(after: Seq<u8>) -> bool {
    ||| after.len() > 0 && after[0] == '=' as u8
    ||| {
        &&& starts_with_keyword(after, ascii("php"))
        &&& after.len() == 3 || !identifier_byte(after[3])
    }
}

/// The part of the data in which a bare `<?` looks for a token.
pub open spec fn weak_window(after: Seq<u8>) -> Seq<u8> {
    if after.len() <= WEAK_WINDOW {
        after
    } else {
        after.take(WEAK_WINDOW as int)
    }
}

/// What follows `<?` is no XML declaration and has a PHP token nearby.
pub open spec fn weak_signal(after: Seq<u8>) -> bool {
    let window = weak_window(after);
    &&& !starts_with_keyword(after, ascii("xml"))
    &&& has_superglobal(window) || has_function(window)
}

/// Whether `<?` followed by `after` opens PHP code.
pub open spec fn opens_php(after: Seq<u8>) -> bool {
    strong_signal(after) || weak_signal(after)
}

/// The `<?` at `at` opens PHP code.
pub open spec fn php_at(data: Seq<u8>, at: int) -> bool {
    found_at(data, ascii(OPEN_MARKER), at) && opens_php(data.skip(at + 2))
}

/// PHP code appears anywhere in the data.
pub open spec fn contains_php(data: Seq<u8>) -> bool {
    exists|at: int| php_at(data, at)
}

proof fn lemma_ascii(text: &str)
    requires
        is_ascii(text),
    ensures
        text.spec_bytes() == ascii(text),
{
    is_ascii_spec_bytes(text);
    assert(text.spec_bytes() =~= ascii(text));
}

proof fn lemma_superglobals_are_ascii()
    ensures
        forall|i: int|
            0 <= i < PHP_SUPERGLOBALS.len() ==> is_ascii(
                #[trigger] PHP_SUPERGLOBALS[i],
            ),
{
    reveal_strlit("$_GET");
    reveal_strlit("$_POST");
    reveal_strlit("$_REQUEST");
    reveal_strlit("$_SERVER");
    reveal_strlit("$_COOKIE");
    reveal_strlit("$_FILES");
    reveal_strlit("$_SESSION");
    reveal_strlit("$_ENV");
    reveal_strlit("$GLOBALS");
}

proof fn lemma_tokens_are_ascii()
    ensures
        forall|i: int|
            0 <= i < PHP_TOKENS_CI.len() ==> is_ascii(#[trigger] PHP_TOKENS_CI[i]),
{
    reveal_strlit("eval");
    reveal_strlit("assert");
    reveal_strlit("system");
    reveal_strlit("exec");
    reveal_strlit("shell_exec");
    reveal_strlit("passthru");
    reveal_strlit("base64_decode");
    reveal_strlit("gzinflate");
    reveal_strlit("str_rot13");
    reveal_strlit("preg_replace");
    reveal_strlit("create_function");
    reveal_strlit("call_user_func");
    reveal_strlit("echo");
    reveal_strlit("function");
    reveal_strlit("print");
    reveal_strlit("require");
    reveal_strlit("include");
}

/// Whether `pattern` stands in `data` at `at`.
fn is_at(data: &[u8], pattern: &[u8], at: usize) -> (found: bool)
    ensures
        found == found_at(data@, pattern@, at as int),
{
    if data.len() < pattern.len() || data.len() - pattern.len() < at {
        return false;
    }
    let mut i: usize = 0;
    while i < pattern.len()
        invariant
            i <= pattern.len(),
            at + pattern.len() <= data.len(),
            forall|j: int| 0 <= j < i ==> data[at + j] == #[trigger] pattern[j],
        decreases pattern.len() - i,
    {
        if data[at + i] != pattern[i] {
            return false;
        }
        i += 1;
    }
    true
}

/// Returns true if `pattern` stands anywhere in `data`.
pub fn contains_bytes(data: &[u8], pattern: &[u8]) -> (found: bool)
    ensures
        found == found_in(data@, pattern@),
{
    let mut at: usize = 0;
    while at < data.len()
        invariant
            at <= data.len(),
            forall|j: int| 0 <= j < at ==> !found_at(data@, pattern@, j),
        decreases data.len() - at,
    {
        if is_at(data, pattern, at) {
            return true;
        }
        at += 1;
    }
    is_at(data, pattern, at)
}

/// Returns the data with its ASCII letters in lower case.
fn to_lowercase(data: &[u8]) -> (lowered: Vec<u8>)
    ensures
        lowered@ == lowercase(data@),
{
    let mut lowered: Vec<u8> = Vec::new();
    let mut i: usize = 0;
    while i < data.len()
        invariant
            i <= data.len(),
            lowered@ == lowercase(data@.take(i as int)),
        decreases data.len() - i,
    {
        let b: u8 = data[i];
        lowered.push(
            if 'A' as u8 <= b && b <= 'Z' as u8 {
                b + 32
            } else {
                b
            },
        );
        i += 1;
        assert(lowered@ =~= lowercase(data@.take(i as int)));
    }
    assert(data@.take(data@.len() as int) =~= data@);
    lowered
}

/// Returns true if `data` starts with the lower-case `keyword`, in any casing.
fn has_keyword(data: &[u8], keyword: &str) -> (found: bool)
    requires
        is_ascii(keyword),
    ensures
        found == starts_with_keyword(data@, ascii(keyword)),
{
    let bytes = keyword.as_bytes();
    proof {
        lemma_ascii(keyword);
    }
    if data.len() < bytes.len() {
        return false;
    }
    let start = to_lowercase(slice_subrange(data, 0, bytes.len()));
    proof {
        assert(data@.subrange(0, bytes@.len() as int) =~= data@.take(bytes@.len() as int));
    }
    let found = is_at(start.as_slice(), bytes, 0);
    proof {
        if found {
            assert forall|i: int| 0 <= i < bytes@.len() implies start@[i] == bytes@[i] by {
                assert(start@[0 + i] == bytes@[i]);
            }
            assert(start@ =~= bytes@);
        }
    }
    found
}

/// Returns true if `window` contains any PHP superglobal or token.
pub fn window_has_php_token(window: &[u8]) -> (found: bool)
    ensures
        found == (has_superglobal(window@) || has_function(window@)),
{
    let mut i: usize = 0;
    while i < PHP_SUPERGLOBALS.len()
        invariant
            i <= PHP_SUPERGLOBALS.len(),
            forall|j: int|
                0 <= j < i ==> !found_in(window@, ascii(#[trigger] PHP_SUPERGLOBALS[j])),
        decreases PHP_SUPERGLOBALS.len() - i,
    {
        proof {
            lemma_superglobals_are_ascii();
            lemma_ascii(PHP_SUPERGLOBALS[i as int]);
        }
        if contains_bytes(window, PHP_SUPERGLOBALS[i].as_bytes()) {
            return true;
        }
        i += 1;
    }
    let lowered = to_lowercase(window);
    i = 0;
    while i < PHP_TOKENS_CI.len()
        invariant
            i <= PHP_TOKENS_CI.len(),
            lowered@ == lowercase(window@),
            !has_superglobal(window@),
            forall|j: int| 0 <= j < i ==> !found_in(lowered@, ascii(#[trigger] PHP_TOKENS_CI[j])),
        decreases PHP_TOKENS_CI.len() - i,
    {
        proof {
            lemma_tokens_are_ascii();
            lemma_ascii(PHP_TOKENS_CI[i as int]);
        }
        if contains_bytes(lowered.as_slice(), PHP_TOKENS_CI[i].as_bytes()) {
            return true;
        }
        i += 1;
    }
    false
}

/// Classifies the bytes that follow a `<?` marker. `after` is the slice
/// starting immediately after the `<?`.
pub fn classify_open_tag(after: &[u8]) -> (php: bool)
    ensures
        php == opens_php(after@),
{
    proof {
        reveal_strlit("php");
        reveal_strlit("xml");
    }
    // `<?=` is always PHP.
    if after.len() > 0 && after[0] == '=' as u8 {
        return true;
    }
    // `<?php` is PHP unless the word goes on.
    if has_keyword(after, "php") {
        if after.len() == 3 {
            return true;
        }
        let b: u8 = after[3];
        let letter = ('a' as u8 <= b && b <= 'z' as u8) || ('A' as u8 <= b && b <= 'Z' as u8);
        let digit = '0' as u8 <= b && b <= '9' as u8;
        if !letter && !digit && b != '_' as u8 {
            return true;
        }
    }
    // `<?xml` is an XML declaration or processing instruction.
    if has_keyword(after, "xml") {
        return false;
    }
    // A bare `<?` counts only if a PHP token appears within the window.
    let end: usize = if after.len() < WEAK_WINDOW {
        after.len()
    } else {
        WEAK_WINDOW
    };
    let window = slice_subrange(after, 0, end);
    assert(window@ =~= weak_window(after@));
    window_has_php_token(window)
}

/// Returns true if PHP code appears anywhere in `data`.
pub fn detect_php(data: &[u8]) -> (php: bool)
    ensures
        php == contains_php(data@),
{
    proof {
        reveal_strlit("<?");
        lemma_ascii(OPEN_MARKER);
    }
    let marker = OPEN_MARKER.as_bytes();
    let mut at: usize = 0;
    while at < data.len()
        invariant
            at <= data.len(),
            marker@ == ascii(OPEN_MARKER),
            marker@.len() == 2,
            forall|j: int| 0 <= j < at ==> !php_at(data@, j),
        decreases data.len() - at,
    {
        if is_at(data, marker, at) {
            let after = slice_subrange(data, at + 2, data.len());
            assert(after@ =~= data@.skip(at + 2));
            if classify_open_tag(after) {
                assert(php_at(data@, at as int));
                return true;
            }
        }
        at += 1;
    }
    false
}

/// Computes the fields of the module for the scanned data. The metadata that a
/// caller may pass to a module plays no part.
pub fn main(data: &[u8], _meta: Option<&[u8]>) -> (php: Php)
    ensures
        php.is_php == Some(contains_php(data@)),
{
    Php { is_php: Some(detect_php(data)) }
}

} // verus!
