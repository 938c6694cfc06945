//! What holds of PHP detection as a whole.
#[allow(unused_imports)]
use crate::php::{
    ascii, contains_php, found_at, found_in, has_function, has_superglobal, identifier_byte, lower,
    lowercase, opens_php, php_at, starts_with_keyword, strong_signal, weak_window, OPEN_MARKER,
    PHP_SUPERGLOBALS, PHP_TOKENS_CI, WEAK_WINDOW,
};
use vstd::prelude::*;

verus! {

/// What stands before PHP code does not hide it: appending PHP to an image or
/// to any other data makes the whole PHP.
pub proof fn law_prefix_keeps_php(prefix: Seq<u8>, data: Seq<u8>)
    requires
        contains_php(data),
    ensures
        contains_php(prefix + data),
{
    reveal_strlit("<?");
    let at = choose|at: int| php_at(data, at);
    let moved = prefix.len() + at;
    assert(found_at(prefix + data, ascii(OPEN_MARKER), moved)) by {
        assert forall|i: int| 0 <= i < 2 implies (prefix + data)[moved + i] == #[trigger] ascii(
            OPEN_MARKER,
        )[i] by {
            assert(data[at + i] == ascii(OPEN_MARKER)[i]);
        }
    }
    assert((prefix + data).skip(moved + 2) =~= data.skip(at + 2));
    assert(php_at(prefix + data, moved));
}

/// `<?=` makes the data PHP wherever it stands and whatever follows.
pub proof fn law_short_echo_tag_is_php(prefix: Seq<u8>, suffix: Seq<u8>)
    ensures
        contains_php(prefix + ascii("<?=") + suffix),
{
    reveal_strlit("<?");
    reveal_strlit("<?=");
    let data = ascii("<?=") + suffix;
    assert(data[0] == ascii(OPEN_MARKER)[0]);
    assert(data[1] == ascii(OPEN_MARKER)[1]);
    assert(data.skip(2)[0] == '=' as u8);
    assert(php_at(data, 0));
    law_prefix_keeps_php(prefix, data);
    assert(prefix + data =~= prefix + ascii("<?=") + suffix);
}

/// `<?php` in any casing makes the data PHP wherever it stands, unless the
/// word goes on with a letter, a digit or an underscore.
pub proof fn law_php_tag_is_php(prefix: Seq<u8>, tag: Seq<u8>, suffix: Seq<u8>)
    requires
        lowercase(tag) == ascii("<?php"),
        suffix.len() == 0 || !identifier_byte(suffix[0]),
    ensures
        contains_php(prefix + tag + suffix),
{
    reveal_strlit("<?");
    reveal_strlit("php");
    reveal_strlit("<?php");
    let data = tag + suffix;
    assert(tag.len() == lowercase(tag).len());
    assert forall|i: int| 0 <= i < 5 implies lower(#[trigger] tag[i]) == ascii("<?php")[i] by {
        assert(lowercase(tag)[i] == lower(tag[i]));
    }
    assert(tag[0] == ascii(OPEN_MARKER)[0]);
    assert(tag[1] == ascii(OPEN_MARKER)[1]);
    let after = data.skip(2);
    assert forall|i: int| 0 <= i < 3 implies lowercase(after.take(3))[i] == ascii("php")[i] by {
        assert(after[i] == tag[i + 2]);
        assert(lower(tag[i + 2]) == ascii("<?php")[i + 2]);
    }
    assert(lowercase(after.take(3)) =~= ascii("php"));
    assert(suffix.len() > 0 ==> after[3] == suffix[0]);
    assert(strong_signal(after));
    assert(php_at(data, 0));
    law_prefix_keeps_php(prefix, data);
    assert(prefix + data =~= prefix + tag + suffix);
}

/// Data without `<?` is not PHP.
pub proof fn law_no_marker_no_php(data: Seq<u8>)
    requires
        !found_in(data, ascii(OPEN_MARKER)),
    ensures
        !contains_php(data),
{
}

/// Data in which every `<?` starts `<?xml`, in any casing, is not PHP,
/// whatever else it holds.
pub proof fn law_xml_declarations_are_not_php(data: Seq<u8>)
    requires
        forall|at: int| #[trigger]
            found_at(data, ascii(OPEN_MARKER), at) ==> starts_with_keyword(
                data.skip(at + 2),
                ascii("xml"),
            ),
    ensures
        !contains_php(data),
{
    reveal_strlit("<?");
    reveal_strlit("php");
    reveal_strlit("xml");
    if contains_php(data) {
        let at = choose|at: int| php_at(data, at);
        let after = data.skip(at + 2);
        assert(found_at(data, ascii(OPEN_MARKER), at));
        assert(lowercase(after.take(3))[0] == ascii("xml")[0]);
        assert(lower(after[0]) == 'x' as u8);
        if starts_with_keyword(after, ascii("php")) {
            assert(lowercase(after.take(3))[0] == ascii("php")[0]);
        }
    }
}

/// Whether a `<?` opens PHP code is decided by the [`WEAK_WINDOW`] bytes after
/// it. A token beyond them changes nothing.
pub proof fn law_only_the_window_matters(after: Seq<u8>, beyond: Seq<u8>)
    requires
        after.len() >= WEAK_WINDOW,
    ensures
        opens_php(after + beyond) == opens_php(after),
{
    reveal_strlit("php");
    reveal_strlit("xml");
    assert((after + beyond).take(3) =~= after.take(3));
    assert((after + beyond).take(WEAK_WINDOW as int) =~= after.take(WEAK_WINDOW as int));
    assert(after.take(after.len() as int) =~= after);
    assert(weak_window(after + beyond) == weak_window(after));
}

/// A bare `<?` without a superglobal or function name in its window does not
/// open PHP code.
pub proof fn law_bare_marker_needs_a_token(after: Seq<u8>)
    requires
        !strong_signal(after),
        !has_superglobal(weak_window(after)),
        !has_function(weak_window(after)),
    ensures
        !opens_php(after),
{
}

/// Function names and the keywords of the tags are recognised in any casing.
pub proof fn law_case_of_names_does_not_matter(a: Seq<u8>, b: Seq<u8>, keyword: Seq<u8>)
    requires
        lowercase(a) == lowercase(b),
    ensures
        has_function(a) == has_function(b),
        starts_with_keyword(a, keyword) == starts_with_keyword(b, keyword),
{
    assert(lowercase(a).len() == a.len());
    assert(lowercase(b).len() == b.len());
    if keyword.len() <= a.len() {
        let n = keyword.len() as int;
        assert(lowercase(a.take(n)) =~= lowercase(a).take(n));
        assert(lowercase(b.take(n)) =~= lowercase(b).take(n));
    }
}

/// The word stands in the data at `at`, letter for letter.
pub open spec fn word_at(data: Seq<u8>, at: int, word: Seq<char>) -> bool {
    &&& 0 <= at
    &&& at + word.len() <= data.len()
    &&& forall|i: int| 0 <= i < word.len() ==> data[at + i] == (#[trigger] word[i]) as u8
}

/// The byte is the character, or the capital form of it.
pub open spec fn same_letter(b: u8, c: char) -> bool {
    b == c as u8 || ('a' <= c <= 'z' && b + 32 == c as u8)
}

/// The lower-case word stands in the data at `at`, in any casing.
pub open spec fn word_at_in_any_casing(data: Seq<u8>, at: int, word: Seq<char>) -> bool {
    &&& 0 <= at
    &&& at + word.len() <= data.len()
    &&& forall|i: int| 0 <= i < word.len() ==> same_letter(data[at + i], #[trigger] word[i])
}

/// The superglobals of PHP that count as evidence.
pub open spec fn superglobal_name(word: Seq<char>) -> bool {
    ||| word == "$_GET"@
    ||| word == "$_POST"@
    ||| word == "$_REQUEST"@
    ||| word == "$_SERVER"@
    ||| word == "$_COOKIE"@
    ||| word == "$_FILES"@
    ||| word == "$_SESSION"@
    ||| word == "$_ENV"@
    ||| word == "$GLOBALS"@
}

/// The functions and keywords of PHP that count as evidence.
pub open spec fn function_name(word: Seq<char>) -> bool {
    ||| word == "eval"@
    ||| word == "assert"@
    ||| word == "system"@
    ||| word == "exec"@
    ||| word == "shell_exec"@
    ||| word == "passthru"@
    ||| word == "base64_decode"@
    ||| word == "gzinflate"@
    ||| word == "str_rot13"@
    ||| word == "preg_replace"@
    ||| word == "create_function"@
    ||| word == "call_user_func"@
    ||| word == "echo"@
    ||| word == "function"@
    ||| word == "print"@
    ||| word == "require"@
    ||| word == "include"@
}

/// A superglobal, spelled exactly, or a function name, in any casing, stands in
/// the data at `at`.
pub open spec fn evidence_at(data: Seq<u8>, at: int, word: Seq<char>) -> bool {
    ||| superglobal_name(word) && word_at(data, at, word)
    ||| function_name(word) && word_at_in_any_casing(data, at, word)
}

proof fn lemma_superglobal_index(word: Seq<char>)
    ensures
        superglobal_name(word) <==> exists|i: int|
            0 <= i < PHP_SUPERGLOBALS.len() && (#[trigger] PHP_SUPERGLOBALS[i])@ == word,
{
    assert(PHP_SUPERGLOBALS[0]@ == "$_GET"@);
    assert(PHP_SUPERGLOBALS[1]@ == "$_POST"@);
    assert(PHP_SUPERGLOBALS[2]@ == "$_REQUEST"@);
    assert(PHP_SUPERGLOBALS[3]@ == "$_SERVER"@);
    assert(PHP_SUPERGLOBALS[4]@ == "$_COOKIE"@);
    assert(PHP_SUPERGLOBALS[5]@ == "$_FILES"@);
    assert(PHP_SUPERGLOBALS[6]@ == "$_SESSION"@);
    assert(PHP_SUPERGLOBALS[7]@ == "$_ENV"@);
    assert(PHP_SUPERGLOBALS[8]@ == "$GLOBALS"@);
}

proof fn lemma_function_index(word: Seq<char>)
    ensures
        function_name(word) <==> exists|i: int|
            0 <= i < PHP_TOKENS_CI.len() && (#[trigger] PHP_TOKENS_CI[i])@ == word,
{
    assert(PHP_TOKENS_CI[0]@ == "eval"@);
    assert(PHP_TOKENS_CI[1]@ == "assert"@);
    assert(PHP_TOKENS_CI[2]@ == "system"@);
    assert(PHP_TOKENS_CI[3]@ == "exec"@);
    assert(PHP_TOKENS_CI[4]@ == "shell_exec"@);
    assert(PHP_TOKENS_CI[5]@ == "passthru"@);
    assert(PHP_TOKENS_CI[6]@ == "base64_decode"@);
    assert(PHP_TOKENS_CI[7]@ == "gzinflate"@);
    assert(PHP_TOKENS_CI[8]@ == "str_rot13"@);
    assert(PHP_TOKENS_CI[9]@ == "preg_replace"@);
    assert(PHP_TOKENS_CI[10]@ == "create_function"@);
    assert(PHP_TOKENS_CI[11]@ == "call_user_func"@);
    assert(PHP_TOKENS_CI[12]@ == "echo"@);
    assert(PHP_TOKENS_CI[13]@ == "function"@);
    assert(PHP_TOKENS_CI[14]@ == "print"@);
    assert(PHP_TOKENS_CI[15]@ == "require"@);
    assert(PHP_TOKENS_CI[16]@ == "include"@);
}

/// Words without capitals.
spec fn without_capitals(word: Seq<char>) -> bool {
    forall|i: int| 0 <= i < word.len() ==> !('A' <= #[trigger] word[i] <= 'Z') && word[i] <= '~'
}

proof fn lemma_functions_have_no_capitals(word: Seq<char>)
    requires
        function_name(word),
    ensures
        without_capitals(word),
{
    reveal_strlit("eval");
    reveal_strlit("assert");
    reveal_strlit("system");
    reveal_strlit("exec");
    reveal_strlit("shell_exec");
    reveal_strlit("passthru");
    reveal_strlit("base64_decode");
    reveal_strlit("gzinflate");
    reveal_strlit("str_rot13");
    reveal_strlit("preg_replace");
    reveal_strlit("create_function");
    reveal_strlit("call_user_func");
    reveal_strlit("echo");
    reveal_strlit("function");
    reveal_strlit("print");
    reveal_strlit("require");
    reveal_strlit("include");
}

proof fn lemma_same_letter(b: u8, c: char)
    requires
        !('A' <= c <= 'Z'),
        c <= '~',
    ensures
        (lower(b) == c as u8) == same_letter(b, c),
{
}

/// A word without capitals stands in lowercased data exactly where it stands in
/// the data in any casing.
proof fn lemma_word_in_lowercase(data: Seq<u8>, at: int, word: &str)
    requires
        without_capitals(word@),
    ensures
        found_at(lowercase(data), ascii(word), at) == word_at_in_any_casing(data, at, word@),
{
    if 0 <= at && at + word@.len() <= data.len() {
        assert forall|i: int| 0 <= i < word@.len() implies (lowercase(data)[at + i] == ascii(
            word,
        )[i]) == same_letter(data[at + i], #[trigger] word@[i]) by {
            let b = data[at + i];
            let c = word@[i];
            assert(lowercase(data)[at + i] == lower(b));
            assert(ascii(word)[i] == c as u8);
            lemma_same_letter(b, c);
        }
        if found_at(lowercase(data), ascii(word), at) {
            assert forall|i: int| 0 <= i < word@.len() implies same_letter(
                data[at + i],
                #[trigger] word@[i],
            ) by {
                assert(lowercase(data)[at + i] == ascii(word)[i]);
            }
        }
        if word_at_in_any_casing(data, at, word@) {
            assert forall|i: int| 0 <= i < ascii(word).len() implies lowercase(data)[at + i]
                == #[trigger] ascii(word)[i] by {
                assert(same_letter(data[at + i], word@[i]));
            }
        }
    }
}

proof fn lemma_word_in_data(data: Seq<u8>, at: int, word: &str)
    ensures
        found_at(data, ascii(word), at) == word_at(data, at, word@),
{
    if found_at(data, ascii(word), at) {
        assert forall|i: int| 0 <= i < word@.len() implies data[at + i] == (
        #[trigger] word@[i]) as u8 by {
            assert(data[at + i] == ascii(word)[i]);
        }
    }
    if word_at(data, at, word@) {
        assert forall|i: int| 0 <= i < ascii(word).len() implies data[at + i] == #[trigger] ascii(
            word,
        )[i] by {
            assert(data[at + i] == word@[i] as u8);
        }
    }
}

/// A window has a token exactly if one of the superglobals stands anywhere in
/// it as it is spelled, or one of the function names in any casing.
pub proof fn law_tokens_of_a_window(window: Seq<u8>)
    ensures
        has_superglobal(window) <==> exists|at: int, word: Seq<char>| #[trigger]
            word_at(window, at, word) && superglobal_name(word),
        has_function(window) <==> exists|at: int, word: Seq<char>| #[trigger]
            word_at_in_any_casing(window, at, word) && function_name(word),
{
    if has_superglobal(window) {
        let i = choose|i: int|
            0 <= i < PHP_SUPERGLOBALS.len() && found_in(
                window,
                ascii(#[trigger] PHP_SUPERGLOBALS[i]),
            );
        let word = PHP_SUPERGLOBALS[i];
        let at = choose|at: int| found_at(window, ascii(word), at);
        lemma_word_in_data(window, at, word);
        lemma_superglobal_index(word@);
        assert(word_at(window, at, word@) && superglobal_name(word@));
    }
    assert forall|at: int, word: Seq<char>| #[trigger]
        word_at(window, at, word) && superglobal_name(word) implies has_superglobal(window) by {
        lemma_superglobal_index(word);
        let i = choose|i: int|
            0 <= i < PHP_SUPERGLOBALS.len() && (#[trigger] PHP_SUPERGLOBALS[i])@ == word;
        lemma_word_in_data(window, at, PHP_SUPERGLOBALS[i]);
        assert(found_at(window, ascii(PHP_SUPERGLOBALS[i]), at));
    }
    if has_function(window) {
        let i = choose|i: int|
            0 <= i < PHP_TOKENS_CI.len() && found_in(
                lowercase(window),
                ascii(#[trigger] PHP_TOKENS_CI[i]),
            );
        let word = PHP_TOKENS_CI[i];
        let at = choose|at: int| found_at(lowercase(window), ascii(word), at);
        lemma_function_index(word@);
        lemma_functions_have_no_capitals(word@);
        lemma_word_in_lowercase(window, at, word);
        assert(word_at_in_any_casing(window, at, word@) && function_name(word@));
    }
    assert forall|at: int, word: Seq<char>| #[trigger]
        word_at_in_any_casing(window, at, word) && function_name(word) implies has_function(
        window,
    ) by {
        lemma_function_index(word);
        lemma_functions_have_no_capitals(word);
        let i = choose|i: int|
            0 <= i < PHP_TOKENS_CI.len() && (#[trigger] PHP_TOKENS_CI[i])@ == word;
        lemma_word_in_lowercase(window, at, PHP_TOKENS_CI[i]);
        assert(found_at(lowercase(window), ascii(PHP_TOKENS_CI[i]), at));
    }
}

/// The data starts with the word in any casing.
proof fn lemma_keyword(data: Seq<u8>, word: &str)
    requires
        without_capitals(word@),
    ensures
        starts_with_keyword(data, ascii(word)) == word_at_in_any_casing(data, 0, word@),
{
    let n = word@.len() as int;
    lemma_word_in_lowercase(data, 0, word);
    if n <= data.len() {
        assert(lowercase(data.take(n)) =~= lowercase(data).take(n));
        if starts_with_keyword(data, ascii(word)) {
            assert forall|i: int| 0 <= i < ascii(word).len() implies lowercase(data)[0 + i]
                == #[trigger] ascii(word)[i] by {
                assert(lowercase(data).take(n)[i] == ascii(word)[i]);
            }
            assert(found_at(lowercase(data), ascii(word), 0));
        }
        if found_at(lowercase(data), ascii(word), 0) {
            assert forall|i: int| 0 <= i < n implies lowercase(data).take(n)[i] == ascii(
                word,
            )[i] by {
                assert(lowercase(data)[0 + i] == ascii(word)[i]);
            }
            assert(lowercase(data).take(n) =~= ascii(word));
        }
    }
}

/// Evidence in the window is evidence among the first 256 bytes.
proof fn lemma_evidence_in_window(after: Seq<u8>)
    ensures
        (has_superglobal(weak_window(after)) || has_function(weak_window(after)))
            <==> exists|at: int, word: Seq<char>| #[trigger]
            evidence_at(after, at, word) && at + word.len() <= 256,
{
    let window = weak_window(after);
    law_tokens_of_a_window(window);
    assert forall|at: int, word: Seq<char>| #[trigger]
        evidence_at(after, at, word) && at + word.len() <= 256 implies has_superglobal(window)
        || has_function(window) by {
        assert(at + word.len() <= window.len());
        assert(forall|k: int| 0 <= k < window.len() ==> window[k] == after[k]);
        if superglobal_name(word) && word_at(after, at, word) {
            assert(word_at(window, at, word));
        } else {
            assert(word_at_in_any_casing(window, at, word));
        }
    }
    if has_superglobal(window) {
        let (at, word) = choose|at: int, word: Seq<char>| #[trigger]
            word_at(window, at, word) && superglobal_name(word);
        assert(forall|k: int| 0 <= k < window.len() ==> window[k] == after[k]);
        assert(word_at(after, at, word));
        assert(evidence_at(after, at, word) && at + word.len() <= 256);
    } else if has_function(window) {
        let (at, word) = choose|at: int, word: Seq<char>| #[trigger]
            word_at_in_any_casing(window, at, word) && function_name(word);
        assert(forall|k: int| 0 <= k < window.len() ==> window[k] == after[k]);
        assert(word_at_in_any_casing(after, at, word));
        assert(evidence_at(after, at, word) && at + word.len() <= 256);
    }
}

/// A letter, a digit or an underscore.
pub open spec fn continues_a_word(b: u8) -> bool {
    'a' as u8 <= b <= 'z' as u8 || 'A' as u8 <= b <= 'Z' as u8 || '0' as u8 <= b <= '9' as u8 || b
        == '_' as u8
}

/// When `<?` opens PHP code: if `=` follows; if `php` follows in any casing and
/// the word ends there; or if `xml` does not follow in any casing and some
/// evidence stands within the next 256 bytes. In no other case.
pub proof fn law_when_a_marker_opens_php(after: Seq<u8>)
    ensures
        opens_php(after) <==> {
            ||| after.len() > 0 && after[0] == '=' as u8
            ||| word_at_in_any_casing(after, 0, "php"@) && (after.len() == 3 || !continues_a_word(
                after[3],
            ))
            ||| !word_at_in_any_casing(after, 0, "xml"@) && exists|at: int, word: Seq<char>|
                #[trigger] evidence_at(after, at, word) && at + word.len() <= 256
        },
{
    reveal_strlit("php");
    reveal_strlit("xml");
    assert(without_capitals("php"@));
    assert(without_capitals("xml"@));
    lemma_keyword(after, "php");
    lemma_keyword(after, "xml");
    lemma_evidence_in_window(after);
}

/// Data is PHP exactly if at some place `<?` stands in it and what follows
/// makes that open PHP code.
pub proof fn law_when_data_is_php(data: Seq<u8>)
    ensures
        contains_php(data) <==> exists|at: int| #[trigger] marker_at(data, at) && opens_php(
            data.skip(at + 2),
        ),
{
    reveal_strlit("<?");
    assert forall|at: int| #[trigger] marker_at(data, at) == found_at(
        data,
        ascii(OPEN_MARKER),
        at,
    ) by {
        lemma_word_in_data(data, at, OPEN_MARKER);
        if marker_at(data, at) {
            assert forall|i: int| 0 <= i < OPEN_MARKER@.len() implies data[at + i] == (
            #[trigger] OPEN_MARKER@[i]) as u8 by {
                assert(i == 0 || i == 1);
            }
        }
        if word_at(data, at, OPEN_MARKER@) {
            assert(data[at + 0] == OPEN_MARKER@[0] as u8);
            assert(data[at + 1] == OPEN_MARKER@[1] as u8);
        }
    }
    if contains_php(data) {
        let at = choose|at: int| php_at(data, at);
        assert(marker_at(data, at));
    }
    assert forall|at: int| #[trigger] marker_at(data, at) && opens_php(
        data.skip(at + 2),
    ) implies contains_php(data) by {
        assert(php_at(data, at));
    }
}

/// `<?` stands in the data at `at`.
pub open spec fn marker_at(data: Seq<u8>, at: int) -> bool {
    0 <= at && at + 2 <= data.len() && data[at] == '<' as u8 && data[at + 1] == '?' as u8
}

/// A bare `<?` with evidence within the next 256 bytes opens PHP code, whatever
/// else follows and whatever stands before it, unless it starts an XML
/// declaration.
pub proof fn law_bare_marker_with_evidence_is_php(
    prefix: Seq<u8>,
    after: Seq<u8>,
    at: int,
    word: Seq<char>,
)
    requires
        !word_at_in_any_casing(after, 0, "xml"@),
        superglobal_name(word) && word_at(after, at, word) || function_name(word)
            && word_at_in_any_casing(after, at, word),
        at + word.len() <= 256,
    ensures
        opens_php(after),
        contains_php(prefix + seq!['<' as u8, '?' as u8] + after),
{
    assert(evidence_at(after, at, word));
    law_when_a_marker_opens_php(after);
    let data = prefix + seq!['<' as u8, '?' as u8] + after;
    assert(data.skip(prefix.len() as int + 2) =~= after);
    assert(marker_at(data, prefix.len() as int));
    law_when_data_is_php(data);
}

/// A pattern is found in data exactly if the data is something, the pattern and
/// something more.
pub proof fn law_found_patterns_are_parts(data: Seq<u8>, pattern: Seq<u8>)
    ensures
        found_in(data, pattern) <==> exists|before: Seq<u8>, after: Seq<u8>| data == #[trigger] (
        before + pattern + after),
{
    if found_in(data, pattern) {
        let at = choose|at: int| found_at(data, pattern, at);
        let before = data.take(at);
        let after = data.skip(at + pattern.len());
        assert forall|i: int| 0 <= i < data.len() implies data[i] == (before + pattern + after)[i] by {
            if at <= i < at + pattern.len() {
                assert(data[at + (i - at)] == pattern[i - at]);
            }
        }
        assert(data =~= before + pattern + after);
    }
    assert forall|before: Seq<u8>, after: Seq<u8>| data == #[trigger] (before + pattern
        + after) implies found_in(data, pattern) by {
        assert(found_at(data, pattern, before.len() as int));
    }
}

} // verus!
