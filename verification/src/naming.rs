//! The names of the part files: the source name, a dot, and the part index
//! padded with zeros to the width of the chunk count.

use crate::chunks::{calculate_num_chunks, num_chunks};
use vstd::prelude::*;
use vstd::string::*;

verus! {

/// The number of decimal digits of `n`. Zero has none.
pub open spec fn digit_count(n: nat) -> nat
    decreases n,
{
    if n == 0 {
        0
    } else {
        1 + digit_count(n / 10)
    }
}

/// Ten to the power `exponent`.
pub open spec fn pow10(exponent: nat) -> nat
    decreases exponent,
{
    if exponent == 0 {
        1
    } else {
        10 * pow10((exponent - 1) as nat)
    }
}

/// A number has at most as many digits as its value.
pub proof fn lemma_digit_count_at_most_value(n: nat)
    ensures
        digit_count(n) <= n,
    decreases n,
{
    if n > 0 {
        lemma_digit_count_at_most_value(n / 10);
    }
}

/// The digit count places a positive number between two powers of ten:
/// `count` digits hold exactly the numbers from `10^(count-1)` up to, not
/// including, `10^count`.
pub proof fn lemma_digit_count_bounds(n: nat)
    requires
        n > 0,
    ensures
        digit_count(n) >= 1,
        pow10((digit_count(n) - 1) as nat) <= n < pow10(digit_count(n)),
    decreases n,
{
    if n >= 10 {
        lemma_digit_count_bounds(n / 10);
    } else {
        assert(digit_count(n / 10) == 0);
        assert(pow10(1) == 10) by {
            reveal_with_fuel(pow10, 2);
        }
    }
}

/// A number below `10^exponent` has at most `exponent` digits.
pub proof fn lemma_digit_count_below_power(n: nat, exponent: nat)
    requires
        n < pow10(exponent),
    ensures
        digit_count(n) <= exponent,
    decreases exponent,
{
    if n > 0 {
        if exponent == 0 {
        } else {
            lemma_digit_count_below_power(n / 10, (exponent - 1) as nat);
        }
    }
}

/// Counts the decimal digits of `num`; zero has none.
pub fn count_digits(num: usize) -> (count: usize)
    ensures
        count == digit_count(num as nat),
        num == 0 <==> count == 0,
        num > 0 ==> pow10((count - 1) as nat) <= num < pow10(count as nat),
{
    let mut count: usize = 0;
    let mut x: usize = num;
    while x > 0
        invariant
            count + digit_count(x as nat) == digit_count(num as nat),
        decreases x,
    {
        proof {
            lemma_digit_count_at_most_value(num as nat);
        }
        count += 1;
        x /= 10;
    }
    proof {
        if num > 0 {
            lemma_digit_count_bounds(num as nat);
        }
    }
    count
}

/// The character that writes the digit `d`.
pub open spec fn digit_char(d: nat) -> char
    recommends
        d < 10,
{
    if d == 0 {
        '0'
    } else if d == 1 {
        '1'
    } else if d == 2 {
        '2'
    } else if d == 3 {
        '3'
    } else if d == 4 {
        '4'
    } else if d == 5 {
        '5'
    } else if d == 6 {
        '6'
    } else if d == 7 {
        '7'
    } else if d == 8 {
        '8'
    } else {
        '9'
    }
}

/// The decimal writing of `n`, most significant digit first, without
/// leading zeros. Zero is written as a single `0`.
pub open spec fn decimal(n: nat) -> Seq<char>
    decreases n,
{
    if n < 10 {
        seq![digit_char(n)]
    } else {
        decimal(n / 10).push(digit_char(n % 10))
    }
}

/// `count` zeros in a row.
pub open spec fn zeros(count: nat) -> Seq<char> {
    Seq::new(count, |i: int| '0')
}

/// The decimal writing of `n`, with zeros in front until it is `width`
/// characters long. A number that is longer than `width` is written in full.
pub open spec fn zero_padded(n: nat, width: nat) -> Seq<char> {
    let digits = decimal(n);
    if digits.len() >= width {
        digits
    } else {
        zeros((width - digits.len()) as nat) + digits
    }
}

/// The name of part `part_num` of the file `file_path`: the file's name, a
/// dot, and the part number padded to the digit count of the chunk count.
pub open spec fn part_name(
    file_path: Seq<char>,
    part_num: nat,
    chunk_size: nat,
    file_size: nat,
) -> Seq<char>
    recommends
        chunk_size > 0,
{
    file_path + seq!['.'] + zero_padded(
        part_num,
        digit_count(num_chunks(file_size, chunk_size)),
    )
}

/// The decimal writing of a positive number has as many characters as the
/// number has digits; that of zero has one.
pub proof fn lemma_decimal_len(n: nat)
    ensures
        decimal(n).len() == (if n == 0 {
            1
        } else {
            digit_count(n)
        }),
    decreases n,
{
    if n >= 10 {
        lemma_decimal_len(n / 10);
    } else if n > 0 {
        assert(digit_count(n / 10) == 0);
    }
}

fn digit_text(d: usize) -> (text: &'static str)
    requires
        d < 10,
    ensures
        text@ == seq![digit_char(d as nat)],
{
    proof {
        reveal_strlit("0");
        reveal_strlit("1");
        reveal_strlit("2");
        reveal_strlit("3");
        reveal_strlit("4");
        reveal_strlit("5");
        reveal_strlit("6");
        reveal_strlit("7");
        reveal_strlit("8");
        reveal_strlit("9");
    }
    if d == 0 {
        "0"
    } else if d == 1 {
        "1"
    } else if d == 2 {
        "2"
    } else if d == 3 {
        "3"
    } else if d == 4 {
        "4"
    } else if d == 5 {
        "5"
    } else if d == 6 {
        "6"
    } else if d == 7 {
        "7"
    } else if d == 8 {
        "8"
    } else {
        "9"
    }
}

fn append_decimal(text: &mut String, n: usize)
    ensures
        final(text)@ == old(text)@ + decimal(n as nat),
    decreases n,
{
    if n >= 10 {
        append_decimal(text, n / 10);
    }
    text.append(digit_text(n % 10));
}

/// Builds the name of part `part_num` of the file named `file_path`, for a
/// file of `file_size` bytes cut into chunks of `chunk_size` bytes.
pub fn get_part_name(
    file_path: String,
    part_num: usize,
    chunk_size: usize,
    file_size: usize,
) -> (name: String)
    requires
        chunk_size > 0,
    ensures
        name@ == part_name(file_path@, part_num as nat, chunk_size as nat, file_size as nat),
{
    let num_chunks = calculate_num_chunks(file_size, chunk_size);
    let width = count_digits(num_chunks);
    let mut name = file_path;
    name.append(".");
    proof {
        reveal_strlit(".");
        reveal_strlit("0");
        lemma_decimal_len(part_num as nat);
    }
    let digits = count_digits(part_num);
    let mut written: usize = if part_num == 0 {
        1
    } else {
        digits
    };
    let ghost length = written;
    while written < width
        invariant
            length <= written,
            written <= width || written == length,
            name@ == file_path@ + seq!['.'] + zeros((written - length) as nat),
            "0"@ == seq!['0'],
        decreases width - written,
    {
        name.append("0");
        written += 1;
        assert(zeros((written - length) as nat) =~= zeros((written - 1 - length) as nat) + seq![
            '0',
        ]);
    }
    append_decimal(&mut name, part_num);
    name
}

/// Whether `a` comes before `b` in the order of strings, decided at
/// position `at`: the two agree before it, and there `a` has ended or holds
/// the smaller character.
pub open spec fn precedes_at(a: Seq<char>, b: Seq<char>, at: int) -> bool {
    &&& 0 <= at <= a.len()
    &&& at < b.len()
    &&& forall|i: int| 0 <= i < at ==> a[i] == b[i]
    &&& (at == a.len() || (a[at] as u32) < (b[at] as u32))
}

/// Whether `a` sorts strictly before `b`, character by character.
pub open spec fn precedes(a: Seq<char>, b: Seq<char>) -> bool {
    exists|at: int| precedes_at(a, b, at)
}

/// A number below `10^width` is written in exactly `width` characters.
pub proof fn lemma_zero_padded_len(n: nat, width: nat)
    requires
        width >= 1,
        n < pow10(width),
    ensures
        zero_padded(n, width).len() == width,
{
    lemma_decimal_len(n);
    lemma_digit_count_below_power(n, width);
}

/// With room for every digit, the padded writing of `n` is that of `n / 10`
/// in one character less, followed by the last digit of `n`.
proof fn lemma_zero_padded_step(n: nat, width: nat)
    requires
        width >= 2,
        n < pow10(width),
    ensures
        n / 10 < pow10((width - 1) as nat),
        zero_padded(n, width) == zero_padded(n / 10, (width - 1) as nat).push(digit_char(n % 10)),
{
    lemma_decimal_len(n);
    lemma_decimal_len(n / 10);
    lemma_digit_count_below_power(n / 10, (width - 1) as nat);
}

/// Among numbers that fit in `width` digits, the smaller one is written
/// first in string order. Returns the position that decides it.
proof fn lemma_zero_padded_ordered(a: nat, b: nat, width: nat) -> (at: int)
    requires
        width >= 1,
        a < b < pow10(width),
    ensures
        0 <= at < width,
        zero_padded(a, width).len() == width,
        zero_padded(b, width).len() == width,
        precedes_at(zero_padded(a, width), zero_padded(b, width), at),
    decreases width,
{
    lemma_zero_padded_len(a, width);
    lemma_zero_padded_len(b, width);
    if width == 1 {
        assert(pow10(1) == 10) by {
            reveal_with_fuel(pow10, 2);
        }
        lemma_digit_chars_ordered(a, b);
        0
    } else {
        let shorter = (width - 1) as nat;
        lemma_zero_padded_step(a, width);
        lemma_zero_padded_step(b, width);
        lemma_zero_padded_len(a / 10, shorter);
        lemma_zero_padded_len(b / 10, shorter);
        if a / 10 < b / 10 {
            lemma_zero_padded_ordered(a / 10, b / 10, shorter)
        } else {
            lemma_digit_chars_ordered(a % 10, b % 10);
            shorter as int
        }
    }
}

/// The digit characters stand in the order of the digits.
proof fn lemma_digit_chars_ordered(a: nat, b: nat)
    requires
        a < b < 10,
    ensures
        (digit_char(a) as u32) < (digit_char(b) as u32),
{
}

/// The names of the parts of one file sort as strings in the order of their
/// indices, and all have the same length, however many digits the chunk
/// count takes.
pub proof fn lemma_part_names_sort_by_index(
    file_path: Seq<char>,
    chunk_size: nat,
    file_size: nat,
    earlier: nat,
    later: nat,
)
    requires
        chunk_size > 0,
        earlier < later < num_chunks(file_size, chunk_size),
    ensures
        precedes(
            part_name(file_path, earlier, chunk_size, file_size),
            part_name(file_path, later, chunk_size, file_size),
        ),
        part_name(file_path, earlier, chunk_size, file_size).len() == part_name(
            file_path,
            later,
            chunk_size,
            file_size,
        ).len(),
{
    let count = num_chunks(file_size, chunk_size);
    let width = digit_count(count);
    lemma_digit_count_bounds(count);
    let at = lemma_zero_padded_ordered(earlier, later, width);
    let a = part_name(file_path, earlier, chunk_size, file_size);
    let b = part_name(file_path, later, chunk_size, file_size);
    let shift = file_path.len() + 1;
    assert(precedes_at(a, b, shift + at));
}

} // verus!
