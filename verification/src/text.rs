//! Bytes of text: white space, fields and decimal numbers.

use vstd::prelude::*;

verus! {

/// A blank, a tab, a line feed, a vertical tab, a form feed or a carriage
/// return.
pub open spec fn is_space(byte: u8) -> bool {
    byte == 32 || (9 <= byte && byte <= 13)
}

/// One of `0` to `9`.
pub open spec fn is_digit(byte: u8) -> bool {
    48 <= byte && byte <= 57
}

/// The number that a run of digits writes in base ten.
pub open spec fn digits_value(digits: Seq<u8>) -> nat
    decreases digits.len(),
{
    if digits.len() == 0 {
        0
    } else {
        digits_value(digits.drop_last()) * 10 + (digits.last() - 48) as nat
    }
}

/// Every byte is a digit.
pub open spec fn all_digits(bytes: Seq<u8>) -> bool {
    forall|i: int| 0 <= i < bytes.len() ==> is_digit(#[trigger] bytes[i])
}

/// The digits of a field: what follows its sign `+`, if it has one.
pub open spec fn unsigned_part(field: Seq<u8>) -> Seq<u8> {
    if field.len() > 0 && field[0] == 43 {
        field.skip(1)
    } else {
        field
    }
}

/// The number that `field` writes: an optional `+`, then one digit or
/// more, with a value of at most `u32::MAX`. Any other field writes none.
pub open spec fn decimal_u32(field: Seq<u8>) -> Option<u32> {
    let digits = unsigned_part(field);
    if digits.len() > 0 && all_digits(digits) && digits_value(digits) <= u32::MAX {
        Some(digits_value(digits) as u32)
    } else {
        None
    }
}

/// The first place at or after `from` where `line` holds no white space,
/// or its end.
pub open spec fn field_start(line: Seq<u8>, from: int) -> int
    decreases line.len() - from,
{
    if 0 <= from < line.len() && is_space(line[from]) {
        field_start(line, from + 1)
    } else {
        from
    }
}

/// The first place at or after `from` where `line` holds white space, or
/// its end.
pub open spec fn field_end(line: Seq<u8>, from: int) -> int
    decreases line.len() - from,
{
    if 0 <= from < line.len() && !is_space(line[from]) {
        field_end(line, from + 1)
    } else {
        from
    }
}

/// The number of bytes of `text` from `from` up to the next line feed, or
/// up to the end.
pub open spec fn line_len(text: Seq<u8>, from: int) -> nat
    decreases text.len() - from,
{
    if 0 <= from < text.len() && text[from] != 10 {
        1 + line_len(text, from + 1)
    } else {
        0
    }
}

/// More digits never write a smaller number.
proof fn lemma_digits_value_grows(digits: Seq<u8>, count: int)
    requires
        0 <= count <= digits.len(),
        all_digits(digits),
    ensures
        digits_value(digits.take(count)) <= digits_value(digits),
    decreases digits.len() - count,
{
    if count < digits.len() {
        lemma_digits_value_grows(digits, count + 1);
        assert(digits.take(count + 1).drop_last() =~= digits.take(count));
    } else {
        assert(digits.take(count) =~= digits);
    }
}

/// Whether `byte` is white space.
pub fn is_space_byte(byte: u8) -> (space: bool)
    ensures
        space == is_space(byte),
{
    byte == 32 || (9 <= byte && byte <= 13)
}

/// Reads the number that `field` writes.
pub fn parse_u32(field: &[u8]) -> (value: Option<u32>)
    ensures
        value == decimal_u32(field@),
{
    let start: usize = if field.len() > 0 && field[0] == 43 {
        1
    } else {
        0
    };
    let ghost digits = unsigned_part(field@);
    if start == field.len() {
        return None;
    }
    let mut value: u64 = 0;
    let mut i: usize = start;
    while i < field.len()
        invariant
            start <= i <= field.len(),
            digits == field@.skip(start as int),
            digits == unsigned_part(field@),
            value == digits_value(digits.take(i - start)),
            all_digits(digits.take(i - start)),
            value <= u32::MAX,
        decreases field.len() - i,
    {
        let byte = field[i];
        if !(48 <= byte && byte <= 57) {
            assert(!is_digit(digits[i - start]));
            return None;
        }
        let ghost before = digits.take(i - start);
        let ghost after = digits.take(i - start + 1);
        assert(after.drop_last() =~= before);
        value = value * 10 + (byte - 48) as u64;
        if value > 0xFFFF_FFFF {
            proof {
                if all_digits(digits) {
                    lemma_digits_value_grows(digits, i - start + 1);
                }
            }
            return None;
        }
        i += 1;
    }
    assert(digits.take(i - start) =~= digits);
    Some(value as u32)
}

/// The place of the next field of `line` at or after `from`.
pub fn skip_spaces(line: &[u8], from: usize) -> (start: usize)
    requires
        from <= line.len(),
    ensures
        start == field_start(line@, from as int),
        from <= start <= line.len(),
{
    let mut i: usize = from;
    while i < line.len() && is_space_byte(line[i])
        invariant
            from <= i <= line.len(),
            field_start(line@, from as int) == field_start(line@, i as int),
        decreases line.len() - i,
    {
        i += 1;
    }
    i
}

/// The place where the field of `line` that begins at `from` ends.
pub fn skip_field(line: &[u8], from: usize) -> (end: usize)
    requires
        from <= line.len(),
    ensures
        end == field_end(line@, from as int),
        from <= end <= line.len(),
{
    let mut i: usize = from;
    while i < line.len() && !is_space_byte(line[i])
        invariant
            from <= i <= line.len(),
            field_end(line@, from as int) == field_end(line@, i as int),
        decreases line.len() - i,
    {
        i += 1;
    }
    i
}

/// The place where the line of `text` that begins at `from` ends.
pub fn skip_line(text: &[u8], from: usize) -> (end: usize)
    requires
        from <= text.len(),
    ensures
        end == from + line_len(text@, from as int),
        from <= end <= text.len(),
{
    let mut i: usize = from;
    while i < text.len() && text[i] != 10
        invariant
            from <= i <= text.len(),
            from + line_len(text@, from as int) == i + line_len(text@, i as int),
        decreases text.len() - i,
    {
        i += 1;
    }
    i
}

} // verus!
