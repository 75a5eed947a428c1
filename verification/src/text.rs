//! Text of error messages.

use vstd::prelude::*;
use vstd::string::*;

verus! {

/// The character that stands for a decimal digit.
pub open spec fn digit_char(d: int) -> char {
    ('0' as int + d) as char
}

/// `n` in decimal notation, without leading zeros.
pub open spec fn decimal(n: int) -> Seq<char>
    decreases n,
{
    if n < 10 {
        seq![digit_char(n)]
    } else {
        decimal(n / 10).push(digit_char(n % 10))
    }
}

/// The message for an image that holds no complete patch.
pub open spec fn too_small_message(rows: int, cols: int, patch_size: int) -> Seq<char> {
    "Image size ("@ + decimal(rows) + ", "@ + decimal(cols) + ") is smaller than patch_size "@
        + decimal(patch_size)
}

/// The number that a text of decimal digits stands for.
pub open spec fn number(text: Seq<char>) -> int
    decreases text.len(),
{
    if text.len() == 0 {
        0
    } else {
        10 * number(text.drop_last()) + (text.last() as int - '0' as int)
    }
}

/// Decimal notation stands for the number that it was made of: all characters are digits, and the
/// first is not zero but for the number zero.
pub proof fn law_decimal_stands_for_its_number(n: int)
    requires
        n >= 0,
    ensures
        number(decimal(n)) == n,
        decimal(n).len() > 0,
        forall|i: int|
            0 <= i < decimal(n).len() ==> '0' <= #[trigger] decimal(n)[i] && decimal(n)[i] <= '9',
        n > 0 ==> decimal(n)[0] != '0',
    decreases n,
{
    reveal_with_fuel(number, 2);
    if n < 10 {
        assert(decimal(n).drop_last() =~= Seq::<char>::empty());
    } else {
        law_decimal_stands_for_its_number(n / 10);
        assert(decimal(n).drop_last() =~= decimal(n / 10));
    }
}

/// The decimal digit `d` as text.
fn digit_str(d: usize) -> (r: &'static str)
    requires
        d < 10,
    ensures
        r@ == seq![digit_char(d as int)],
{
    proof {
        reveal_strlit("0");
        reveal_strlit("1");
        reveal_strlit("2");
        reveal_strlit("3");
        reveal_strlit("4");
        reveal_strlit("5");
        reveal_strlit("6");
        reveal_strlit("7");
        reveal_strlit("8");
        reveal_strlit("9");
    }
    match d {
        0 => "0",
        1 => "1",
        2 => "2",
        3 => "3",
        4 => "4",
        5 => "5",
        6 => "6",
        7 => "7",
        8 => "8",
        _ => "9",
    }
}

/// Writes `n` in decimal notation to the end of `out`.
fn append_decimal(out: &mut String, n: usize)
    ensures
        final(out)@ == old(out)@ + decimal(n as int),
    decreases n,
{
    if n >= 10 {
        append_decimal(out, n / 10);
        out.append(digit_str(n % 10));
        assert(out@ =~= old(out)@ + decimal(n as int));
    } else {
        out.append(digit_str(n));
    }
}

/// The message for an image that holds no complete patch.
pub fn too_small(rows: usize, cols: usize, patch_size: usize) -> (r: String)
    ensures
        r@ == too_small_message(rows as int, cols as int, patch_size as int),
{
    let mut out = String::from_str("Image size (");
    append_decimal(&mut out, rows);
    out.append(", ");
    append_decimal(&mut out, cols);
    out.append(") is smaller than patch_size ");
    append_decimal(&mut out, patch_size);
    out
}

} // verus!
