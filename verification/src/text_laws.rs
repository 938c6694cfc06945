//! How numbers, bytes and positions are written.
#[allow(unused_imports)]
use crate::text::{
    bytes_before, clamped, column_after, cuts_at, decimal, digit, escaped, escaped_byte, line_after,
    slice_of, utf8,
};
use vstd::prelude::*;
#[allow(unused_imports)]
use vstd::utf8::{encode_utf8, is_char_boundary};

verus! {

/// The number that a text of decimal digits stands for.
pub open spec fn number_in(text: Seq<char>) -> int
    decreases text.len(),
{
    if text.len() == 0 {
        0
    } else {
        10 * number_in(text.drop_last()) + (text.last() as int - '0' as int)
    }
}

/// A number is written with decimal digits that stand for it, at least one, and
/// with no zero before the others.
pub proof fn law_numbers_are_written_in_decimal(n: nat)
    ensures
        number_in(decimal(n)) == n,
        decimal(n).len() >= 1,
        forall|i: int| 0 <= i < decimal(n).len() ==> '0' <= #[trigger] decimal(n)[i] <= '9',
        decimal(n).len() > 1 ==> decimal(n)[0] != '0',
    decreases n,
{
    if n < 10 {
        assert(number_in(decimal(n).drop_last()) == 0);
        assert(decimal(n).last() as int == '0' as int + n);
    } else {
        law_numbers_are_written_in_decimal(n / 10);
        let d = n % 10;
        assert(digit(d) as int == '0' as int + d);
        assert(decimal(n).drop_last() =~= decimal(n / 10));
        assert(decimal(n).last() == digit(d));
        let init = decimal(n / 10);
        assert forall|i: int| 0 <= i < decimal(n).len() implies '0' <= #[trigger] decimal(n)[i]
            <= '9' by {
            if i < init.len() {
                assert(decimal(n)[i] == init[i]);
            }
        }
        assert(decimal(n)[0] == init[0]);
        if init.len() == 1 {
            assert(number_in(init.drop_last()) == 0);
            assert(init.last() == init[0]);
            assert(number_in(init) == init[0] as int - '0' as int);
        }
    }
}

/// Different numbers are written differently.
pub proof fn law_numbers_are_told_apart(a: nat, b: nat)
    requires
        decimal(a) == decimal(b),
    ensures
        a == b,
{
    law_numbers_are_written_in_decimal(a);
    law_numbers_are_written_in_decimal(b);
}

/// The value of a hexadecimal digit in lower case, or -1 if it is none.
pub open spec fn hex_value(c: char) -> int {
    if '0' <= c <= '9' {
        c as int - '0' as int
    } else if 'a' <= c <= 'f' {
        c as int - 'a' as int + 10
    } else {
        -1
    }
}

/// How one byte is escaped: a tab, a carriage return and a line feed by their
/// letters, quotes and the backslash by a backslash before them, other
/// printable ASCII not at all, and anything else by its two hexadecimal digits.
pub proof fn law_how_a_byte_is_escaped(b: u8)
    ensures
        ({
            let text = escaped(seq![b]);
            if b == 0x09 {
                text == seq!['\\', 't']
            } else if b == 0x0d {
                text == seq!['\\', 'r']
            } else if b == 0x0a {
                text == seq!['\\', 'n']
            } else if b == 0x22 || b == 0x27 || b == 0x5c {
                text == seq!['\\', b as char]
            } else if 0x20 <= b < 0x7f {
                text == seq![b as char]
            } else {
                &&& text.len() == 4
                &&& text[0] == '\\'
                &&& text[1] == 'x'
                &&& 0 <= hex_value(text[2]) < 16
                &&& 0 <= hex_value(text[3]) < 16
                &&& 16 * hex_value(text[2]) + hex_value(text[3]) == b
            }
        }),
{
    assert(escaped(seq![b].drop_last()) =~= Seq::empty());
    assert(escaped(seq![b]) =~= escaped_byte(b));
    lemma_digit((b / 16) as nat);
    lemma_digit((b % 16) as nat);
}

proof fn lemma_digit(d: nat)
    requires
        d < 16,
    ensures
        hex_value(digit(d)) == d,
{
    if d < 10 {
        assert(digit(d) as int == '0' as int + d);
    } else {
        assert(digit(d) as int == 'a' as int + d - 10);
    }
}

/// Bytes are escaped one by one.
pub proof fn law_bytes_are_escaped_one_by_one(a: Seq<u8>, b: Seq<u8>)
    ensures
        escaped(a + b) == escaped(a) + escaped(b),
        escaped(Seq::<u8>::empty()).len() == 0,
    decreases b.len(),
{
    if b.len() == 0 {
        assert(a + b =~= a);
        assert(escaped(a) + escaped(b) =~= escaped(a));
    } else {
        law_bytes_are_escaped_one_by_one(a, b.drop_last());
        assert((a + b).drop_last() =~= a + b.drop_last());
        assert(escaped(a + b) =~= escaped(a) + escaped(b));
    }
}

/// The line and the column of what follows `before`: one more than the number
/// of newlines in it, and one more than the number of bytes after the last of
/// them.
pub open spec fn stands_at(before: Seq<u8>, line: nat, column: nat) -> bool {
    &&& line == 1 + before.filter(|b: u8| b == 0x0a).len()
    &&& 1 <= column <= before.len() + 1
    &&& column <= before.len() ==> before[before.len() - column] == 0x0a
    &&& forall|i: int| before.len() - column < i < before.len() ==> #[trigger] before[i] != 0x0a
}

/// The bytes before an offset, which counts as the end if it lies beyond it.
pub open spec fn part_before(content: Seq<char>, offset: nat) -> Seq<u8> {
    if offset <= encode_utf8(content).len() {
        encode_utf8(content).take(offset as int)
    } else {
        encode_utf8(content)
    }
}

/// There is one line and one column for an offset: those that counting the
/// newlines before it gives.
pub proof fn law_line_and_column_of_an_offset(
    content: Seq<char>,
    offset: nat,
    line: nat,
    column: nat,
)
    ensures
        stands_at(part_before(content, offset), line, column) <==> line == line_after(
            bytes_before(content, offset),
        ) && column == column_after(bytes_before(content, offset)),
{
    let before = part_before(content, offset);
    assert(bytes_before(content, offset) =~= before);
    crate::report_laws::law_positions_count_newlines(before);
    let newline = |b: u8| b == '\n' as u8;
    let other = |b: u8| b == 0x0a;
    assert(newline =~= other);
    if stands_at(before, line, column) {
        let c = column_after(before);
        let start = before.len() - (c - 1);
        if column < c {
            assert(before[before.len() - column] == 0x0a);
            assert(before[before.len() - column] != '\n' as u8);
        } else if column > c {
            assert(before[start - 1] == '\n' as u8);
            assert(before[start - 1] != 0x0a);
        }
    }
}

/// The text between two offsets is the one whose bytes stand between them.
pub proof fn law_text_between_offsets(content: Seq<char>, start: nat, end: nat, part: Seq<char>)
    requires
        start <= end <= encode_utf8(content).len(),
        encode_utf8(part) == encode_utf8(content).subrange(start as int, end as int),
    ensures
        slice_of(content, start, end) == part,
{
    vstd::utf8::encode_utf8_decode_utf8(part);
}

/// A text can be cut at an offset exactly if no character goes across it, and
/// an offset beyond the end counts as the end.
pub proof fn law_where_a_text_can_be_cut(content: Seq<char>, offset: nat)
    ensures
        cuts_at(content, offset) == is_char_boundary(encode_utf8(content), offset as int),
        utf8(content) == encode_utf8(content),
        clamped(utf8(content), offset) == if offset <= encode_utf8(content).len() {
            offset
        } else {
            encode_utf8(content).len()
        },
{
}

} // verus!
