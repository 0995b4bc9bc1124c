//! Cell references: the column letters and row number by which a cell is
//! addressed, such as `A1` or `AB12`.

use vstd::prelude::*;
use crate::text::{decimal, lemma_decimal_injective, lemma_decimal_is_digits, push_decimal};

verus! {

/// The upper-case letter with position `d < 26` in the alphabet.
pub open spec fn letter(d: nat) -> char {
    ((65 + d) as u8) as char
}

/// The letters that name the column with 0-based index `column`:
/// `A` to `Z`, then `AA` to `AZ`, `BA` and so on.
pub open spec fn column_letters(column: nat) -> Seq<char>
    decreases column,
{
    if column < 26 {
        seq![letter(column)]
    } else {
        column_letters((column / 26 - 1) as nat).push(letter(column % 26))
    }
}

/// The 0-based column index that a sequence of upper-case letters names, and
/// -1 for the empty sequence.
pub open spec fn column_index(letters: Seq<char>) -> int
    decreases letters.len(),
{
    if letters.len() == 0 {
        -1
    } else {
        (column_index(letters.drop_last()) + 1) * 26 + (letters.last() as int - 65)
    }
}

/// The reference of the cell in 0-based column `column` of the row with
/// 1-based number `row`.
pub open spec fn cell_reference(column: nat, row: nat) -> Seq<char> {
    column_letters(column) + decimal(row)
}

/// The letters of a column name the column they were made from.
pub proof fn lemma_column_letters_index(column: nat)
    ensures
        column_index(column_letters(column)) == column,
    decreases column,
{
    let s = column_letters(column);
    if column < 26 {
        assert(s.drop_last() =~= Seq::<char>::empty());
        assert(column_index(s.drop_last()) == -1);
        assert(s.last() == letter(column));
    } else {
        let before = (column / 26 - 1) as nat;
        lemma_column_letters_index(before);
        assert(s.drop_last() =~= column_letters(before));
        assert(s.last() == letter(column % 26));
    }
}

/// Two columns with the same letters are the same column.
pub proof fn lemma_column_letters_injective(a: nat, b: nat)
    requires
        column_letters(a) == column_letters(b),
    ensures
        a == b,
{
    lemma_column_letters_index(a);
    lemma_column_letters_index(b);
}

/// The name of a column is made of upper-case letters, and of one at least.
pub proof fn lemma_column_letters_are_letters(column: nat)
    ensures
        column_letters(column).len() > 0,
        forall|i: int|
            0 <= i < column_letters(column).len() ==> 'A' <= #[trigger] column_letters(column)[i]
                <= 'Z',
    decreases column,
{
    if column >= 26 {
        lemma_column_letters_are_letters((column / 26 - 1) as nat);
    }
}

/// A reference names one cell only: two cells with the same reference stand
/// in the same column of the same row.
pub proof fn lemma_cell_reference_injective(column: nat, row: nat, other_column: nat, other_row: nat)
    requires
        cell_reference(column, row) == cell_reference(other_column, other_row),
    ensures
        column == other_column,
        row == other_row,
{
    let letters = column_letters(column);
    let digits = decimal(row);
    let other_letters = column_letters(other_column);
    let other_digits = decimal(other_row);
    let reference = cell_reference(column, row);
    lemma_column_letters_are_letters(column);
    lemma_column_letters_are_letters(other_column);
    lemma_decimal_is_digits(row);
    lemma_decimal_is_digits(other_row);
    assert(reference.len() == letters.len() + digits.len());
    assert(reference.len() == other_letters.len() + other_digits.len());
    if letters.len() < other_letters.len() {
        let k = letters.len() as int;
        assert(reference[k] == digits[0]);
        assert(reference[k] == other_letters[k]);
        assert(false);
    }
    if other_letters.len() < letters.len() {
        let k = other_letters.len() as int;
        assert(reference[k] == other_digits[0]);
        assert(reference[k] == letters[k]);
        assert(false);
    }
    assert(letters =~= other_letters) by {
        assert forall|i: int| 0 <= i < letters.len() implies letters[i] == other_letters[i] by {
            assert(reference[i] == letters[i]);
            assert(reference[i] == other_letters[i]);
        }
    }
    assert(digits =~= other_digits) by {
        assert forall|i: int| 0 <= i < digits.len() implies digits[i] == other_digits[i] by {
            assert(reference[letters.len() + i] == digits[i]);
            assert(reference[letters.len() + i] == other_digits[i]);
        }
    }
    lemma_column_letters_injective(column, other_column);
    lemma_decimal_injective(row, other_row);
}

/// Appends the letters of the column with 0-based index `column` to `out`.
pub fn push_column_letters(out: &mut String, column: usize)
    ensures
        final(out)@ == old(out)@ + column_letters(column as nat),
    decreases column,
{
    if column >= 26 {
        push_column_letters(out, column / 26 - 1);
    }
    let d: u8 = (column % 26) as u8;
    out.push((65u8 + d) as char);
    assert(final(out)@ =~= old(out)@ + column_letters(column as nat));
}

/// Appends the reference of the cell in column `column` of row `row` to `out`.
pub fn push_cell_reference(out: &mut String, column: usize, row: usize)
    ensures
        final(out)@ == old(out)@ + cell_reference(column as nat, row as nat),
{
    push_column_letters(out, column);
    push_decimal(out, row as u64);
    assert(final(out)@ =~= old(out)@ + cell_reference(column as nat, row as nat));
}

} // verus!
