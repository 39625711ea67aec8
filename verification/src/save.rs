//! The stored scores as text: whole numbers in decimal with whitespace
//! between them. One space is written between each two; any run of whitespace
//! is read as one gap.

use vstd::prelude::*;

verus! {

/// The byte of a space.
pub const SPACE: u8 = 32;

/// The byte of a plus sign.
pub const PLUS: u8 = 43;

/// The byte of the digit zero.
pub const ZERO: u8 = 48;

/// The byte is whitespace: a space, a tab, a line feed, a vertical tab, a form
/// feed or a carriage return.
pub open spec fn is_space(b: u8) -> bool {
    b == SPACE || 9 <= b <= 13
}

/// The byte is one of the ten digits.
pub open spec fn is_digit(b: u8) -> bool {
    ZERO <= b <= ZERO + 9
}

/// Every byte is a digit.
pub open spec fn all_digits(s: Seq<u8>) -> bool {
    forall|i: int| 0 <= i < s.len() ==> is_digit(#[trigger] s[i])
}

/// The number that a run of digits writes.
pub open spec fn digits_value(s: Seq<u8>) -> nat
    decreases s.len(),
{
    if s.len() == 0 {
        0
    } else {
        digits_value(s.drop_last()) * 10 + (s.last() - ZERO) as nat
    }
}

/// A field without the plus sign that may lead it.
pub open spec fn unsigned_part(field: Seq<u8>) -> Seq<u8> {
    if field.len() > 0 && field[0] == PLUS {
        field.subrange(1, field.len() as int)
    } else {
        field
    }
}

/// Whether a field is a number that can be held: digits, at least one, after
/// at most one plus sign, and no more than `usize` takes.
pub open spec fn readable(field: Seq<u8>) -> bool {
    let digits = unsigned_part(field);
    digits.len() > 0 && all_digits(digits) && digits_value(digits) <= usize::MAX
}

/// What a field counts as: its number, or zero where it cannot be read.
pub open spec fn field_value(field: Seq<u8>) -> usize {
    if readable(field) {
        digits_value(unsigned_part(field)) as usize
    } else {
        0
    }
}

/// The fields of a text: its longest runs of bytes that are not whitespace,
/// in their order. Whitespace before the first, behind the last, and any
/// amount of it between two of them, belongs to no field.
pub open spec fn fields(text: Seq<u8>) -> Seq<Seq<u8>>
    decreases text.len(),
{
    if text.len() == 0 {
        Seq::empty()
    } else if is_space(text.last()) {
        fields(text.drop_last())
    } else if text.len() == 1 || is_space(text[text.len() - 2]) {
        fields(text.drop_last()).push(seq![text.last()])
    } else {
        let before = fields(text.drop_last());
        before.update(before.len() - 1, before.last().push(text.last()))
    }
}

/// The numbers of a text, field by field.
pub open spec fn numbers(text: Seq<u8>) -> Seq<usize> {
    Seq::new(fields(text).len(), |i: int| field_value(fields(text)[i]))
}

/// The decimal digits of a number, without leading zeros.
pub open spec fn decimal(n: nat) -> Seq<u8>
    decreases n,
{
    if n < 10 {
        seq![(ZERO + n) as u8]
    } else {
        decimal(n / 10).push((ZERO + n % 10) as u8)
    }
}

/// Numbers in decimal with one space between each two.
pub open spec fn joined(values: Seq<usize>) -> Seq<u8>
    decreases values.len(),
{
    if values.len() == 0 {
        Seq::empty()
    } else if values.len() == 1 {
        decimal(values[0] as nat)
    } else {
        joined(values.drop_last()) + seq![SPACE] + decimal(values.last() as nat)
    }
}

/// A number in decimal is a run of digits, at least one, that writes it.
pub proof fn lemma_decimal_reads_back(n: nat)
    ensures
        decimal(n).len() >= 1,
        all_digits(decimal(n)),
        digits_value(decimal(n)) == n,
    decreases n,
{
    if n < 10 {
        assert(decimal(n).drop_last() =~= Seq::empty());
        assert(digits_value(decimal(n).drop_last()) == 0);
    } else {
        lemma_decimal_reads_back(n / 10);
        assert(decimal(n).drop_last() =~= decimal(n / 10));
    }
}

/// Bytes without whitespace among them, written behind a text that is empty
/// or ends in whitespace, are one more field.
proof fn lemma_fields_extend(text: Seq<u8>, more: Seq<u8>)
    requires
        text.len() == 0 || is_space(text.last()),
        more.len() >= 1,
        forall|i: int| 0 <= i < more.len() ==> !is_space(more[i]),
    ensures
        fields(text + more) == fields(text).push(more),
    decreases more.len(),
{
    let whole = text + more;
    assert(whole.last() == more.last());
    if more.len() == 1 {
        assert(whole.drop_last() =~= text);
        if text.len() > 0 {
            assert(whole[whole.len() - 2] == text.last());
        }
        assert(seq![more.last()] =~= more);
    } else {
        let shorter = more.drop_last();
        lemma_fields_extend(text, shorter);
        assert(whole.drop_last() =~= text + shorter);
        assert(whole[whole.len() - 2] == shorter.last());
        assert(!is_space(shorter.last()));
        assert(shorter.push(more.last()) =~= more);
        assert(fields(whole) =~= fields(text).push(more));
    }
}

/// A number written in decimal is read as that number.
proof fn lemma_decimal_field(n: usize)
    ensures
        field_value(decimal(n as nat)) == n,
        decimal(n as nat).len() >= 1,
        forall|i: int| 0 <= i < decimal(n as nat).len() ==> !is_space(decimal(n as nat)[i]),
{
    lemma_decimal_reads_back(n as nat);
    let d = decimal(n as nat);
    assert(is_digit(d[0]));
    assert(unsigned_part(d) == d);
    assert forall|i: int| 0 <= i < d.len() implies !is_space(d[i]) by {
        assert(is_digit(d[i]));
    }
}

/// Numbers written with one space between each two are read back as they
/// were.
pub proof fn lemma_written_is_read(values: Seq<usize>)
    ensures
        numbers(joined(values)) == values,
    decreases values.len(),
{
    if values.len() == 0 {
        assert(numbers(joined(values)) =~= values);
    } else {
        let last = decimal(values.last() as nat);
        lemma_decimal_field(values.last());
        if values.len() == 1 {
            let none = Seq::<u8>::empty();
            lemma_fields_extend(none, last);
            assert(none + last =~= last);
            assert(numbers(joined(values)) =~= values);
        } else {
            let init = values.drop_last();
            lemma_written_is_read(init);
            let head = joined(init) + seq![SPACE];
            assert(head.drop_last() =~= joined(init));
            assert(fields(head) == fields(joined(init)));
            lemma_fields_extend(head, last);
            assert(numbers(joined(init)).len() == init.len());
            assert forall|i: int| 0 <= i < values.len() implies numbers(joined(values))[i]
                == values[i] by {
                if i < init.len() {
                    assert(numbers(joined(init))[i] == init[i]);
                }
            }
            assert(numbers(joined(values)) =~= values);
        }
    }
}

/// More digits never write a smaller number.
proof fn lemma_digits_grow(s: Seq<u8>, k: int)
    requires
        0 <= k <= s.len(),
    ensures
        digits_value(s.take(k)) <= digits_value(s),
    decreases s.len(),
{
    if k == s.len() {
        assert(s.take(k) =~= s);
    } else {
        lemma_digits_grow(s.drop_last(), k);
        assert(s.drop_last().take(k) =~= s.take(k));
    }
}

/// Reads one field: its number, or zero where it is no number that `usize`
/// holds.
pub fn parse_field(field: &Vec<u8>) -> (r: usize)
    ensures
        r == field_value(field@),
{
    let n: usize = field.len();
    let start: usize = if n > 0 && field[0] == PLUS {
        1
    } else {
        0
    };
    let ghost digits = unsigned_part(field@);
    assert(digits.len() == n - start);
    let mut acc: usize = 0;
    let mut i: usize = start;
    while i < n
        invariant
            start <= i <= n,
            n == field@.len(),
            digits == unsigned_part(field@),
            digits.len() == n - start,
            forall|j: int| 0 <= j < digits.len() ==> digits[j] == field@[j + start],
            all_digits(digits.take(i - start)),
            acc == digits_value(digits.take(i - start)),
        decreases n - i,
    {
        let b: u8 = field[i];
        assert(b == digits[i - start]);
        if b < ZERO || b > ZERO + 9 {
            return 0;
        }
        let digit: usize = (b - ZERO) as usize;
        proof {
            let upto = digits.take(i - start + 1);
            assert(upto.drop_last() =~= digits.take(i - start));
            assert(upto.last() == b);
            assert(digits_value(upto) == acc * 10 + digit);
            lemma_digits_grow(digits, i - start + 1);
        }
        if acc > (usize::MAX - digit) / 10 {
            return 0;
        }
        acc = acc * 10 + digit;
        i = i + 1;
    }
    assert(digits.take(n - start) =~= digits);
    acc
}

fn space(b: u8) -> (r: bool)
    ensures
        r == is_space(b),
{
    b == SPACE || (9 <= b && b <= 13)
}

/// Reads the numbers of a text, one for each field. A field that is no
/// number counts as zero.
pub fn parse_save(text: &[u8]) -> (saved: Vec<usize>)
    ensures
        saved@ == numbers(text@),
{
    let mut saved: Vec<usize> = Vec::new();
    let mut field: Vec<u8> = Vec::new();
    let mut open: bool = false;
    let mut i: usize = 0;
    while i < text.len()
        invariant
            i <= text@.len(),
            open == (i > 0 && !is_space(text@[i - 1])),
            fields(text@.take(i as int)).len() == saved@.len() + (if open { 1int } else { 0int }),
            open ==> fields(text@.take(i as int)).last() == field@,
            forall|j: int|
                0 <= j < saved@.len() ==> saved@[j] == field_value(
                    #[trigger] fields(text@.take(i as int))[j],
                ),
        decreases text@.len() - i,
    {
        let b: u8 = text[i];
        proof {
            let upto = text@.take(i as int + 1);
            assert(upto.drop_last() =~= text@.take(i as int));
            assert(upto.last() == b);
            if i > 0 {
                assert(upto[upto.len() - 2] == text@[i - 1]);
            }
        }
        if space(b) {
            if open {
                let value: usize = parse_field(&field);
                saved.push(value);
                open = false;
            }
        } else if open {
            field.push(b);
        } else {
            field = Vec::new();
            field.push(b);
            open = true;
            assert(field@ =~= seq![b]);
        }
        i = i + 1;
    }
    assert(text@.take(i as int) =~= text@);
    if open {
        let value: usize = parse_field(&field);
        saved.push(value);
    }
    assert(saved@ =~= numbers(text@));
    saved
}

fn push_decimal(out: &mut Vec<u8>, n: usize)
    ensures
        final(out)@ == old(out)@ + decimal(n as nat),
    decreases n,
{
    if n >= 10 {
        push_decimal(out, n / 10);
    }
    out.push(ZERO + (n % 10) as u8);
    assert(final(out)@ =~= old(out)@ + decimal(n as nat));
}

/// Writes numbers as text that `parse_save` reads back.
pub fn format_save(saved: &Vec<usize>) -> (text: Vec<u8>)
    ensures
        text@ == joined(saved@),
{
    let mut text: Vec<u8> = Vec::new();
    let mut i: usize = 0;
    while i < saved.len()
        invariant
            i <= saved@.len(),
            text@ == joined(saved@.take(i as int)),
        decreases saved@.len() - i,
    {
        proof {
            let upto = saved@.take(i as int + 1);
            assert(upto.drop_last() =~= saved@.take(i as int));
            assert(upto.last() == saved@[i as int]);
        }
        if i > 0 {
            text.push(SPACE);
        }
        push_decimal(&mut text, saved[i]);
        assert(text@ =~= joined(saved@.take(i as int + 1)));
        i = i + 1;
    }
    assert(saved@.take(i as int) =~= saved@);
    text
}

} // verus!
