use vstd::arithmetic::div_mod::lemma_div_denominator;
use vstd::arithmetic::power::pow;
use vstd::prelude::*;

use crate::size::{double_spacing, human_size, nearest, nearest_double, unit_size};
use crate::text::{
    all_digits, decimal, decimal_value, digit_char, is_digit_char, is_whitespace_char, parsed_u64, trim_back, trim_front,
    without_plus,
};

verus! {

proof fn lemma_pow_ten(k: nat)
    ensures
        pow(10, k) > 0,
        pow(10, k + 1) == 10 * pow(10, k),
        pow(10, 0) == 1,
    decreases k,
{
    reveal(pow);
    if k > 0 {
        lemma_pow_ten((k - 1) as nat);
    }
}

/// The digits of a number stand where their powers of ten ask for: counted from the last one, the digit
/// with the number `k` is how many times ten to the power of `k` goes into the number, modulo ten.
pub proof fn law_digits_have_their_places(n: nat, k: int)
    requires
        0 <= k < decimal(n).len(),
    ensures
        decimal(n)[decimal(n).len() - 1 - k] as int == 48 + (n as int / pow(10, k as nat)) % 10,
    decreases n,
{
    lemma_pow_ten(k as nat);
    if n >= 10 {
        let front = decimal(n / 10);
        assert(decimal(n).drop_last() == front);
        if k > 0 {
            law_digits_have_their_places(n / 10, k - 1);
            lemma_pow_ten((k - 1) as nat);
            lemma_div_denominator(n as int, 10, pow(10, (k - 1) as nat));
            assert(decimal(n)[decimal(n).len() - 1 - k] == front[front.len() - 1 - (k - 1)]);
        }
    }
}

/// A number is written with as many digits as it needs.
pub proof fn law_digits_are_as_many_as_needed(n: nat)
    ensures
        decimal(n).len() > 0,
        n < pow(10, decimal(n).len()),
        decimal(n).len() == 1 || pow(10, (decimal(n).len() - 1) as nat) <= n,
    decreases n,
{
    let length = decimal(n).len();
    lemma_pow_ten(0);
    lemma_pow_ten((length - 1) as nat);
    if n >= 10 {
        law_digits_are_as_many_as_needed(n / 10);
        assert(decimal(n / 10).len() == length - 1);
        if length > 2 {
            lemma_pow_ten((length - 2) as nat);
        }
    }
}

/// So many zeros.
pub open spec fn zeros(count: nat) -> Seq<char> {
    Seq::new(count, |i: int| '0')
}

/// Every row of digits is the number that it writes, with zeros in front.
proof fn lemma_row_of_digits(s: Seq<char>) -> (count: nat)
    requires
        s.len() > 0,
        all_digits(s),
    ensures
        s == zeros(count) + decimal(decimal_value(s)),
    decreases s.len(),
{
    let front = s.drop_last();
    let digit = (s.last() as int - '0' as int) as nat;
    assert(is_digit(s[s.len() - 1]));
    if front.len() == 0 {
        assert(decimal_value(front) == 0);
        assert(s == zeros(0) + decimal(digit));
        0
    } else {
        assert(all_digits(front)) by {
            assert forall|i: int| 0 <= i < front.len() implies is_digit_char(
                #[trigger] front[i],
            ) by {
                assert(front[i] == s[i]);
            }
        }
        let before = lemma_row_of_digits(front);
        let value = decimal_value(front);
        if value == 0 {
            assert(decimal_value(s) == digit);
            assert(front == zeros(before + 1));
            assert(s == zeros(before + 1) + decimal(digit));
            before + 1
        } else {
            let whole = decimal_value(s);
            assert(whole == value * 10 + digit && whole / 10 == value && whole % 10 == digit);
            assert(decimal(whole) == decimal(value).push(s.last()));
            assert(front.push(s.last()) == s);
            assert((zeros(before) + decimal(value)).push(s.last()) == zeros(before) + decimal(
                value,
            ).push(s.last()));
            before
        }
    }
}

spec fn is_digit(c: char) -> bool {
    '0' <= c <= '9'
}

proof fn lemma_zeros(count: nat)
    ensures
        decimal_value(zeros(count)) == 0,
    decreases count,
{
    if count > 0 {
        lemma_zeros((count - 1) as nat);
        assert(zeros(count).drop_last() == zeros((count - 1) as nat));
    }
}

proof fn lemma_written_number(count: nat, n: nat)
    ensures
        ({
            let s = zeros(count) + decimal(n);
            &&& s.len() > 0
            &&& all_digits(s)
            &&& decimal_value(s) == n
            &&& is_digit(s[0])
        }),
    decreases n,
{
    let s = zeros(count) + decimal(n);
    if n < 10 {
        lemma_zeros(count);
        assert(s.drop_last() == zeros(count));
    } else {
        lemma_written_number(count, n / 10);
        let front = zeros(count) + decimal(n / 10);
        assert(s.drop_last() == front);
        assert forall|i: int| 0 <= i < s.len() implies is_digit_char(
            #[trigger] s[i],
        ) by {
            if i < front.len() {
                assert(s[i] == front[i]);
            }
        }
        assert(s[0] == front[0]);
    }
}

/// A text is read as a number exactly when it is that number written in decimal notation, with any zeros
/// and then at most one plus sign in front of it.
pub proof fn law_numbers_are_read_as_written(s: Seq<char>, n: u64)
    ensures
        parsed_u64(s) == Some(n) <==> exists|count: nat|
            s == #[trigger] zeros(count) + decimal(n as nat) || s == seq!['+'] + zeros(count)
                + decimal(n as nat),
{
    if parsed_u64(s) == Some(n) {
        let body = without_plus(s);
        let count = lemma_row_of_digits(body);
        if s.len() > 0 && s[0] == '+' {
            assert(seq!['+'] + s.drop_first() == s);
            assert(seq!['+'] + (zeros(count) + decimal(n as nat)) == seq!['+'] + zeros(count)
                + decimal(n as nat));
        } else {
            assert(s == zeros(count) + decimal(n as nat));
        }
    }
    if exists|count: nat|
        s == #[trigger] zeros(count) + decimal(n as nat) || s == seq!['+'] + zeros(count) + decimal(
            n as nat,
        ) {
        let count = choose|count: nat|
            s == #[trigger] zeros(count) + decimal(n as nat) || s == seq!['+'] + zeros(count)
                + decimal(n as nat);
        lemma_written_number(count, n as nat);
        let written = zeros(count) + decimal(n as nat);
        if s != written {
            assert(s == seq!['+'] + written);
            assert(s.drop_first() == written);
        }
    }
}

/// Trimming takes off whitespace in front and at the end, all of it and nothing else.
pub proof fn law_trimming_takes_whitespace(s: Seq<char>)
    ensures
        exists|from: int, to: int|
            {
                &&& 0 <= from <= to <= s.len()
                &&& trim_back(trim_front(s)) == #[trigger] s.subrange(from, to)
                &&& forall|k: int| 0 <= k < from ==> is_whitespace_char(#[trigger] s[k])
                &&& forall|k: int| to <= k < s.len() ==> is_whitespace_char(#[trigger] s[k])
                &&& from < to ==> !is_whitespace_char(s[from]) && !is_whitespace_char(s[to - 1])
            },
{
    let from = lemma_trim_front(s);
    let middle = trim_front(s);
    let length = lemma_trim_back(middle);
    let to = from + length;
    assert(middle == s.skip(from));
    assert(middle.take(length) == s.subrange(from, to));
    assert forall|k: int| to <= k < s.len() implies is_whitespace_char(#[trigger] s[k]) by {
        assert(middle[k - from] == s[k]);
    }
    if from < to {
        assert(middle[length - 1] == s[to - 1]);
    }
}

proof fn lemma_trim_front(s: Seq<char>) -> (from: int)
    ensures
        0 <= from <= s.len(),
        trim_front(s) == s.skip(from),
        forall|k: int| 0 <= k < from ==> is_whitespace_char(#[trigger] s[k]),
        from < s.len() ==> !is_whitespace_char(s[from]),
    decreases s.len(),
{
    if s.len() > 0 && is_whitespace_char(s[0]) {
        let rest = s.drop_first();
        let from = lemma_trim_front(rest);
        assert(rest.skip(from) == s.skip(from + 1));
        assert forall|k: int| 0 <= k < from + 1 implies is_whitespace_char(#[trigger] s[k]) by {
            if k > 0 {
                assert(rest[k - 1] == s[k]);
            }
        }
        if from < rest.len() {
            assert(rest[from] == s[from + 1]);
        }
        from + 1
    } else {
        assert(s.skip(0) == s);
        0
    }
}

proof fn lemma_trim_back(s: Seq<char>) -> (length: int)
    ensures
        0 <= length <= s.len(),
        trim_back(s) == s.take(length),
        forall|k: int| length <= k < s.len() ==> is_whitespace_char(#[trigger] s[k]),
        length > 0 ==> !is_whitespace_char(s[length - 1]),
    decreases s.len(),
{
    if s.len() > 0 && is_whitespace_char(s.last()) {
        let rest = s.drop_last();
        let length = lemma_trim_back(rest);
        assert(rest.take(length) == s.take(length));
        assert forall|k: int| length <= k < s.len() implies is_whitespace_char(#[trigger] s[k]) by {
            if k < rest.len() {
                assert(rest[k] == s[k]);
            }
        }
        length
    } else {
        assert(s.take(s.len() as int) == s);
        s.len() as int
    }
}

/// Rounding gives a whole number that is not further off than any other, and of two that are as near the
/// even one.
pub proof fn law_rounding_is_to_the_nearest(num: nat, den: nat)
    requires
        den > 0,
    ensures
        ({
            let rounded = nearest(num, den);
            &&& 2 * (rounded * den) <= 2 * num + den
            &&& 2 * num <= 2 * (rounded * den) + den
            &&& 2 * num == 2 * (rounded * den) + den || 2 * (rounded * den) == 2 * num + den
                ==> rounded % 2 == 0
        }),
{
    let low = num / den;
    let rest = num % den;
    assert(num == low * den + rest && rest < den) by (nonlinear_arith)
        requires
            den > 0,
            low == num / den,
            rest == num % den,
    ;
    assert((low + 1) * den == low * den + den) by (nonlinear_arith);
}

/// The double-precision numbers around `n` are as far apart as a mantissa of fifty-three bits asks for.
pub proof fn law_doubles_have_their_spacing(n: nat)
    ensures
        n < 0x20_0000_0000_0000 ==> double_spacing(n) == 1,
        n >= 0x20_0000_0000_0000 ==> double_spacing(n) == 2 * double_spacing(n / 2),
        n < 0x20_0000_0000_0000 * double_spacing(n),
        double_spacing(n) == 1 || 0x10_0000_0000_0000 * double_spacing(n) <= n,
    decreases n,
{
    if n >= 0x20_0000_0000_0000 {
        law_doubles_have_their_spacing(n / 2);
    }
}

/// A size of up to two to the power of fifty-three bytes is told in tenths of its unit, rounded to the
/// nearest; below one kibibyte it is told exactly.
pub proof fn law_sizes_are_near(bytes: nat)
    requires
        bytes < 0x20_0000_0000_0000,
    ensures
        bytes < 1024 ==> human_size(bytes) == decimal(bytes) + seq![' ', 'B'],
        bytes >= 1024 ==> exists|tenths: nat|
            {
                let unit: nat = if bytes < 1048576 {
                    1024
                } else if bytes < 1073741824 {
                    1048576
                } else {
                    1073741824
                };
                let prefix = if bytes < 1048576 {
                    'K'
                } else if bytes < 1073741824 {
                    'M'
                } else {
                    'G'
                };
                &&& human_size(bytes) == #[trigger] decimal(tenths / 10) + seq!['.'] + decimal(
                    tenths % 10,
                ) + seq![' ', prefix, 'i', 'B']
                &&& 2 * (tenths * unit) <= 20 * bytes + unit
                &&& 20 * bytes <= 2 * (tenths * unit) + unit
            },
{
    reveal_strlit(" B");
    reveal_strlit(" KiB");
    reveal_strlit(" MiB");
    reveal_strlit(" GiB");
    if bytes < 1024 {
        assert(" B"@ =~= seq![' ', 'B']);
    } else {
        let unit = unit_size(bytes);
        law_doubles_have_their_spacing(bytes);
        assert(nearest(bytes, 1) == bytes);
        assert(nearest_double(bytes) == bytes);
        let tenths = nearest(10 * bytes, unit);
        law_rounding_is_to_the_nearest(10 * bytes, unit);
        assert(" KiB"@ =~= seq![' ', 'K', 'i', 'B']);
        assert(" MiB"@ =~= seq![' ', 'M', 'i', 'B']);
        assert(" GiB"@ =~= seq![' ', 'G', 'i', 'B']);
        assert(seq!['.', digit_char((tenths % 10) as int)] =~= seq!['.'] + decimal(tenths % 10));
        assert(decimal(tenths / 10) + (seq!['.'] + decimal(tenths % 10)) =~= decimal(tenths / 10)
            + seq!['.'] + decimal(tenths % 10));
    }
}

} // verus!
