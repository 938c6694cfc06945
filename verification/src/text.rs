//! Building blocks for the text of a report.
use vstd::prelude::*;
use vstd::string::*;
#[allow(unused_imports)]
use vstd::utf8::*;

verus! {

/// `String::push` appends the given char to the end of the string.
pub assume_specification[ String::push ](s: &mut String, c: char)
    ensures
        final(s)@ == old(s)@.push(c),
;

/// The character of a decimal or hexadecimal digit, in lower case.
pub open spec fn digit(d: nat) -> char {
    if d < 10 {
        ('0' as u8 + d) as char
    } else {
        ('a' as u8 + d - 10) as char
    }
}

/// A number written in decimal, without leading zeros.
pub open spec fn decimal(n: nat) -> Seq<char>
    decreases n,
{
    if n < 10 {
        seq![digit(n)]
    } else {
        decimal(n / 10).push(digit(n % 10))
    }
}

/// A byte as text: printable ASCII as it is, except that quotes and the
/// backslash are escaped, and anything else as an escape sequence.
pub open spec fn escaped_byte(b: u8) -> Seq<char> {
    if b == '\t' as u8 {
        seq!['\\', 't']
    } else if b == '\r' as u8 {
        seq!['\\', 'r']
    } else if b == '\n' as u8 {
        seq!['\\', 'n']
    } else if b == '\'' as u8 || b == '"' as u8 || b == '\\' as u8 {
        seq!['\\', b as char]
    } else if 0x20 <= b <= 0x7e {
        seq![b as char]
    } else {
        seq!['\\', 'x', digit((b / 16) as nat), digit((b % 16) as nat)]
    }
}

pub open spec fn escaped(bytes: Seq<u8>) -> Seq<char>
    decreases bytes.len(),
{
    if bytes.len() == 0 {
        Seq::empty()
    } else {
        escaped(bytes.drop_last()) + escaped_byte(bytes.last())
    }
}

fn digit_char(d: u8) -> (c: char)
    requires
        d < 16,
    ensures
        c == digit(d as nat),
{
    if d < 10 {
        ('0' as u8 + d) as char
    } else {
        ('a' as u8 + (d - 10)) as char
    }
}

/// Appends a number in decimal.
pub fn push_decimal(out: &mut String, n: usize)
    ensures
        final(out)@ == old(out)@ + decimal(n as nat),
    decreases n,
{
    if n < 10 {
        out.push(digit_char(n as u8));
        assert(out@ =~= old(out)@ + decimal(n as nat));
    } else {
        push_decimal(out, n / 10);
        out.push(digit_char((n % 10) as u8));
        assert(out@ =~= old(out)@ + decimal(n as nat));
    }
}

/// Appends bytes as escaped text.
pub fn push_escaped(out: &mut String, bytes: &[u8])
    ensures
        final(out)@ == old(out)@ + escaped(bytes@),
{
    let ghost start = out@;
    let mut i: usize = 0;
    assert(out@ =~= start + escaped(bytes@.take(0)));
    while i < bytes.len()
        invariant
            i <= bytes@.len(),
            out@ == start + escaped(bytes@.take(i as int)),
        decreases bytes@.len() - i,
    {
        let b: u8 = bytes[i];
        let ghost before = out@;
        if b == '\t' as u8 {
            out.push('\\');
            out.push('t');
        } else if b == '\r' as u8 {
            out.push('\\');
            out.push('r');
        } else if b == '\n' as u8 {
            out.push('\\');
            out.push('n');
        } else if b == '\'' as u8 || b == '"' as u8 || b == '\\' as u8 {
            out.push('\\');
            out.push(b as char);
        } else if 0x20 <= b && b <= 0x7e {
            out.push(b as char);
        } else {
            out.push('\\');
            out.push('x');
            out.push(digit_char(b / 16));
            out.push(digit_char(b % 16));
        }
        proof {
            assert(out@ =~= before + escaped_byte(b));
            let next = bytes@.take(i + 1);
            assert(next.drop_last() =~= bytes@.take(i as int));
            assert(out@ =~= start + escaped(next));
        }
        i += 1;
    }
    assert(bytes@.take(bytes@.len() as int) =~= bytes@);
}

/// The offset, moved back to the end of the text if it lies beyond.
pub open spec fn clamped(bytes: Seq<u8>, offset: nat) -> nat {
    if offset < bytes.len() {
        offset
    } else {
        bytes.len()
    }
}

/// The 1-based number of the line on which what follows `before` stands.
pub open spec fn line_after(before: Seq<u8>) -> nat
    decreases before.len(),
{
    if before.len() == 0 {
        1
    } else if before.last() == '\n' as u8 {
        line_after(before.drop_last()) + 1
    } else {
        line_after(before.drop_last())
    }
}

/// The 1-based column, in bytes, in which what follows `before` stands.
pub open spec fn column_after(before: Seq<u8>) -> nat
    decreases before.len(),
{
    if before.len() == 0 || before.last() == '\n' as u8 {
        1
    } else {
        column_after(before.drop_last()) + 1
    }
}

/// The bytes of a text.
pub open spec fn utf8(text: Seq<char>) -> Seq<u8> {
    encode_utf8(text)
}

/// The bytes of a text before an offset.
pub open spec fn bytes_before(text: Seq<char>, offset: nat) -> Seq<u8> {
    utf8(text).take(clamped(utf8(text), offset) as int)
}

/// The text can be cut at the offset: it does not lie within a character.
pub open spec fn cuts_at(text: Seq<char>, offset: nat) -> bool {
    is_char_boundary(utf8(text), offset as int)
}

/// The part of a text from the byte at `start` up to the one at `end`.
pub open spec fn slice_of(text: Seq<char>, start: nat, end: nat) -> Seq<char> {
    decode_utf8(utf8(text).subrange(start as int, end as int))
}

/// Returns the 1-based (line, column) of a byte offset within `content`. An
/// offset beyond the end counts as the end.
pub fn line_col(content: &str, offset: usize) -> (position: (usize, usize))
    requires
        cuts_at(content@, clamped(utf8(content@), offset as nat)),
        clamped(utf8(content@), offset as nat) < usize::MAX,
    ensures
        position.0 == line_after(bytes_before(content@, offset as nat)),
        position.1 == column_after(bytes_before(content@, offset as nat)),
{
    let bytes = content.as_bytes();
    let end: usize = if offset < bytes.len() {
        offset
    } else {
        bytes.len()
    };
    let ghost before = bytes@.take(end as int);
    let mut line: usize = 1;
    let mut column: usize = 1;
    let mut i: usize = 0;
    assert(before.take(0) =~= Seq::empty());
    while i < end
        invariant
            i <= end <= bytes@.len(),
            end < usize::MAX,
            before == bytes@.take(end as int),
            line <= i + 1,
            column <= i + 1,
            line == line_after(before.take(i as int)),
            column == column_after(before.take(i as int)),
        decreases end - i,
    {
        proof {
            let next = before.take(i + 1);
            assert(next.drop_last() =~= before.take(i as int));
            assert(next.last() == bytes@[i as int]);
        }
        if bytes[i] == '\n' as u8 {
            line += 1;
            column = 1;
        } else {
            column += 1;
        }
        i += 1;
    }
    assert(before.take(end as int) =~= before);
    (line, column)
}

/// Returns the part of `content` from the byte at `start` up to the one at
/// `end`.
pub fn cut(content: &str, start: usize, end: usize) -> (part: &str)
    requires
        start <= end <= utf8(content@).len(),
        cuts_at(content@, start as nat),
        cuts_at(content@, end as nat),
    ensures
        part@ == slice_of(content@, start as nat, end as nat),
{
    let ghost bytes = utf8(content@);
    let head = content.split_at(end).0;
    proof {
        encode_utf8_valid_utf8(content@);
        encode_utf8_valid_utf8(head@);
        let front = utf8(head@);
        assert(front == bytes.subrange(0, end as int));
        if start < end {
            is_char_boundary_iff_not_is_continuation_byte(bytes, start as int);
            is_char_boundary_iff_not_is_continuation_byte(front, start as int);
        } else {
            is_char_boundary_start_end_of_seq(front);
        }
    }
    let part = head.split_at(start).1;
    proof {
        assert(utf8(part@) =~= bytes.subrange(start as int, end as int));
        encode_utf8_decode_utf8(part@);
    }
    part
}

} // verus!
