//! How the storage engine numbers the placeholders of a predicate, and why
//! the numbers agree with the values that are bound.
//!
//! The engine reads a predicate from left to right. A `?` on its own takes
//! the number after the highest in use; a `?` followed by digits takes the
//! number that the digits spell. The value bound in the n-th place goes to
//! the placeholders with number n.

use vstd::prelude::*;
use crate::text::{digit_char, int_text, nat_text};

verus! {

/// Whether `c` is a decimal digit.
pub open spec fn is_digit(c: char) -> bool {
    '0' <= c <= '9'
}

/// Whether no placeholder starts in `s`.
pub open spec fn plain(s: Seq<char>) -> bool {
    forall|i: int| 0 <= i < s.len() ==> s[i] != '?'
}

/// Whether `s` can follow a placeholder without running into its number: it
/// is empty or starts with something other than a digit.
pub open spec fn starts_clean(s: Seq<char>) -> bool {
    s.len() == 0 || !is_digit(s[0])
}

/// Whether `s` holds digits only.
pub open spec fn all_digits(s: Seq<char>) -> bool {
    forall|i: int| 0 <= i < s.len() ==> is_digit(#[trigger] s[i])
}

/// How many digits `s` starts with.
pub open spec fn leading_digits(s: Seq<char>) -> nat
    decreases s.len(),
{
    if s.len() > 0 && is_digit(s[0]) {
        1 + leading_digits(s.skip(1))
    } else {
        0
    }
}

/// The number that a run of digits spells.
pub open spec fn digits_value(s: Seq<char>) -> nat
    decreases s.len(),
{
    if s.len() == 0 {
        0
    } else {
        (digits_value(s.drop_last()) * 10 + (s.last() as int - '0' as int)) as nat
    }
}

/// A text starts with no more digits than it has characters.
pub proof fn lemma_leading_digits_fit(s: Seq<char>)
    ensures
        leading_digits(s) <= s.len(),
    decreases s.len(),
{
    if s.len() > 0 && is_digit(s[0]) {
        lemma_leading_digits_fit(s.skip(1));
    }
}

/// The number of values that must be bound once the engine has read `sql`,
/// `bound` values being bound before: the highest number that a placeholder
/// has taken. There is no such number where a placeholder takes a number
/// that leaves one out: where it is 0, or more than one above the highest in
/// use.
pub open spec fn params_after(sql: Seq<char>, bound: nat) -> Option<nat>
    decreases sql.len(),
{
    if sql.len() == 0 {
        Some(bound)
    } else if sql[0] != '?' {
        params_after(sql.skip(1), bound)
    } else {
        let digits = leading_digits(sql.skip(1));
        proof {
            lemma_leading_digits_fit(sql.skip(1));
        }
        if digits == 0 {
            params_after(sql.skip(1), bound + 1)
        } else {
            let number = digits_value(sql.subrange(1, 1 + digits as int));
            if number == bound + 1 {
                params_after(sql.skip(1 + digits as int), bound + 1)
            } else if 1 <= number <= bound {
                params_after(sql.skip(1 + digits as int), bound)
            } else {
                None
            }
        }
    }
}

/// Text without placeholders leaves the numbering as it is.
pub proof fn lemma_plain_is_passed(text: Seq<char>, rest: Seq<char>, bound: nat)
    requires
        plain(text),
    ensures
        params_after(text + rest, bound) == params_after(rest, bound),
    decreases text.len(),
{
    if text.len() == 0 {
        assert(text + rest == rest);
    } else {
        assert((text + rest).skip(1) == text.skip(1) + rest);
        assert((text + rest)[0] == text[0]);
        lemma_plain_is_passed(text.skip(1), rest, bound);
    }
}

/// A `?` on its own takes the next number.
pub proof fn lemma_bare_placeholder(rest: Seq<char>, bound: nat)
    requires
        starts_clean(rest),
    ensures
        params_after(seq!['?'] + rest, bound) == params_after(rest, bound + 1),
{
    let sql = seq!['?'] + rest;
    assert(sql.skip(1) == rest);
}

/// The digits of a number are digits.
pub proof fn lemma_nat_text_is_digits(n: nat)
    ensures
        all_digits(nat_text(n)),
        nat_text(n).len() > 0,
        digits_value(nat_text(n)) == n,
    decreases n,
{
    let last = digit_char((n % 10) as int);
    assert(last as int - '0' as int == n % 10 && is_digit(last));
    if n >= 10 {
        lemma_nat_text_is_digits(n / 10);
        assert(nat_text(n).drop_last() == nat_text(n / 10));
        assert(nat_text(n).last() == last);
        assert(digits_value(nat_text(n)) == digits_value(nat_text(n / 10)) * 10 + n % 10);
    } else {
        assert(nat_text(n).drop_last() =~= Seq::<char>::empty());
        assert(nat_text(n).last() == last);
        assert(digits_value(nat_text(n).drop_last()) == 0);
    }
}

/// A run of digits before clean text is counted in full.
proof fn lemma_leading_digits_of_run(digits: Seq<char>, rest: Seq<char>)
    requires
        all_digits(digits),
        starts_clean(rest),
    ensures
        leading_digits(digits + rest) == digits.len(),
    decreases digits.len(),
{
    if digits.len() == 0 {
        assert(digits + rest == rest);
    } else {
        assert((digits + rest).skip(1) == digits.skip(1) + rest);
        assert((digits + rest)[0] == digits[0]);
        assert forall|i: int| 0 <= i < digits.skip(1).len() implies is_digit(
            #[trigger] digits.skip(1)[i],
        ) by {
            assert(digits.skip(1)[i] == digits[i + 1]);
        }
        lemma_leading_digits_of_run(digits.skip(1), rest);
    }
}

/// A `?` with the number of a value that is bound, or of the next one, is
/// read as that number.
pub proof fn lemma_numbered_placeholder(number: nat, rest: Seq<char>, bound: nat)
    requires
        starts_clean(rest),
        1 <= number <= bound + 1,
    ensures
        params_after(seq!['?'] + nat_text(number) + rest, bound) == params_after(
            rest,
            if number == bound + 1 {
                number
            } else {
                bound
            },
        ),
{
    let digits = nat_text(number);
    let sql = seq!['?'] + digits + rest;
    lemma_nat_text_is_digits(number);
    lemma_leading_digits_of_run(digits, rest);
    assert(sql.skip(1) == digits + rest);
    assert(sql.subrange(1, 1 + digits.len() as int) == digits);
    assert(sql.skip(1 + digits.len() as int) == rest);
}

/// A number in decimal holds no placeholder.
pub proof fn lemma_int_text_is_plain(n: int)
    ensures
        plain(int_text(n)),
        int_text(n).len() > 0,
        !is_digit(int_text(n)[0]) ==> n < 0,
{
    if n < 0 {
        lemma_nat_text_is_digits((-n) as nat);
        let digits = nat_text((-n) as nat);
        assert forall|i: int| 0 <= i < int_text(n).len() implies int_text(n)[i] != '?' by {
            if i > 0 {
                assert(int_text(n)[i] == digits[i - 1]);
            }
        }
    } else {
        lemma_nat_text_is_digits(n as nat);
        let digits = nat_text(n as nat);
        assert forall|i: int| 0 <= i < digits.len() implies digits[i] != '?' by {
            assert(is_digit(digits[i]));
        }
        assert(is_digit(digits[0]));
    }
}

} // verus!
