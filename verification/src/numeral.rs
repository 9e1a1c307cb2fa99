//! Decimal numerals as generated identifiers.
//!
//! Server-generated identifiers (guest localparts, fresh device ids, access
//! tokens) are the decimal numerals of monotonically increasing counters.
//! Distinct counter values give distinct numerals ([`lemma_decimal_injective`]),
//! every numeral is a grammatically valid localpart
//! ([`lemma_decimal_valid_username`]), and a numeral never equals a string
//! holding a non-digit character ([`lemma_numeral_differs_from`]).

use vstd::prelude::*;

use crate::username::{is_allowed_char, is_valid_username, MAX_USERNAME_LEN};

verus! {

/// The character for one decimal digit.
pub open spec fn digit_char(d: int) -> char {
    if d == 0 { '0' }
    else if d == 1 { '1' }
    else if d == 2 { '2' }
    else if d == 3 { '3' }
    else if d == 4 { '4' }
    else if d == 5 { '5' }
    else if d == 6 { '6' }
    else if d == 7 { '7' }
    else if d == 8 { '8' }
    else { '9' }
}

/// True of the ten decimal digit characters.
pub open spec fn is_digit_char(c: char) -> bool {
    48 <= c as u32 && c as u32 <= 57
}

/// The decimal numeral of `n`, most significant digit first, no leading
/// zeroes (except for `n == 0` itself).
pub open spec fn decimal_seq(n: nat) -> Seq<char>
    decreases n,
{
    if n < 10 {
        seq![digit_char(n as int)]
    } else {
        decimal_seq(n / 10).push(digit_char((n % 10) as int))
    }
}

/// Powers of ten, for bounding numeral lengths.
pub open spec fn pow10(k: nat) -> nat
    decreases k,
{
    if k == 0 { 1 } else { 10 * pow10((k - 1) as nat) }
}

/// A numeral is never empty.
pub proof fn lemma_decimal_nonempty(n: nat)
    ensures
        decimal_seq(n).len() >= 1,
    decreases n,
{
    if n >= 10 {
        lemma_decimal_nonempty(n / 10);
    }
}

/// A value below `pow10(k)` has a numeral of at most `k` digits.
pub proof fn lemma_decimal_len_bound(n: nat, k: nat)
    requires
        k >= 1,
        n < pow10(k),
    ensures
        decimal_seq(n).len() <= k,
    decreases k,
{
    if n >= 10 {
        assert(pow10(k) == 10 * pow10((k - 1) as nat));
        assert(n / 10 < pow10((k - 1) as nat)) by (nonlinear_arith)
            requires
                n < 10 * pow10((k - 1) as nat),
        ;
        assert(k - 1 >= 1) by {
            if k == 1 {
                assert(pow10(1nat) == 10);
            }
        }
        lemma_decimal_len_bound(n / 10, (k - 1) as nat);
    }
}

/// Every character of a numeral is a decimal digit.
pub proof fn lemma_decimal_all_digits(n: nat)
    ensures
        forall|i: int| 0 <= i < decimal_seq(n).len() ==> is_digit_char(
            #[trigger] decimal_seq(n)[i],
        ),
    decreases n,
{
    if n >= 10 {
        lemma_decimal_all_digits(n / 10);
        let prefix = decimal_seq(n / 10);
        let whole = decimal_seq(n);
        assert(whole == prefix.push(digit_char((n % 10) as int)));
        assert forall|i: int| 0 <= i < whole.len() implies is_digit_char(
            #[trigger] whole[i],
        ) by {
            if i < prefix.len() {
                assert(whole[i] == prefix[i]);
            } else {
                assert(whole[i] == digit_char((n % 10) as int));
            }
        }
    }
}

/// Any counter value that fits in a machine word yields a numeral that is a
/// valid localpart: non-empty, within the length bound, digits only.
pub proof fn lemma_decimal_valid_username(n: nat)
    requires
        n <= u64::MAX,
    ensures
        is_valid_username(decimal_seq(n)),
{
    lemma_decimal_nonempty(n);
    assert(pow10(20nat) > u64::MAX) by {
        reveal_with_fuel(pow10, 21);
    }
    lemma_decimal_len_bound(n, 20);
    assert(decimal_seq(n).len() <= 20 < MAX_USERNAME_LEN);
    lemma_decimal_all_digits(n);
    assert forall|i: int| 0 <= i < decimal_seq(n).len() implies is_allowed_char(
        #[trigger] decimal_seq(n)[i],
    ) by {
        assert(is_digit_char(decimal_seq(n)[i]));
    }
}

/// Distinct digits have distinct characters.
proof fn lemma_digit_char_injective(a: int, b: int)
    requires
        0 <= a < 10,
        0 <= b < 10,
        digit_char(a) == digit_char(b),
    ensures
        a == b,
{
}

/// Distinct values have distinct numerals.
pub proof fn lemma_decimal_injective(a: nat, b: nat)
    requires
        decimal_seq(a) == decimal_seq(b),
    ensures
        a == b,
    decreases a + b,
{
    lemma_decimal_nonempty(a);
    lemma_decimal_nonempty(b);
    if a < 10 && b < 10 {
        assert(decimal_seq(a) == seq![digit_char(a as int)]);
        assert(decimal_seq(b) == seq![digit_char(b as int)]);
        assert(decimal_seq(a)[0] == digit_char(a as int));
        assert(decimal_seq(b)[0] == digit_char(b as int));
        lemma_digit_char_injective(a as int, b as int);
    } else if a < 10 {
        lemma_decimal_nonempty(b / 10);
        assert(decimal_seq(b).len() >= 2);
    } else if b < 10 {
        lemma_decimal_nonempty(a / 10);
        assert(decimal_seq(a).len() >= 2);
    } else {
        assert(decimal_seq(a) == decimal_seq(a / 10).push(digit_char((a % 10) as int)));
        assert(decimal_seq(b) == decimal_seq(b / 10).push(digit_char((b % 10) as int)));
        assert(decimal_seq(a).last() == digit_char((a % 10) as int));
        assert(decimal_seq(b).last() == digit_char((b % 10) as int));
        lemma_digit_char_injective((a % 10) as int, (b % 10) as int);
        assert(decimal_seq(a).drop_last() =~= decimal_seq(a / 10));
        assert(decimal_seq(b).drop_last() =~= decimal_seq(b / 10));
        assert(decimal_seq(a / 10) == decimal_seq(b / 10));
        lemma_decimal_injective(a / 10, b / 10);
    }
}

/// A string holding a non-digit character never equals a numeral.
pub proof fn lemma_numeral_differs_from(s: Seq<char>, i: int, n: nat)
    requires
        0 <= i < s.len(),
        !is_digit_char(s[i]),
    ensures
        s != decimal_seq(n),
{
    if s == decimal_seq(n) {
        lemma_decimal_all_digits(n);
        assert(is_digit_char(decimal_seq(n)[i]));
    }
}

/// The string for one digit.
fn digit_str(d: u64) -> (r: &'static str)
    requires
        d < 10,
    ensures
        r@ =~= seq![digit_char(d as int)],
{
    proof {
        reveal_strlit("0");
        reveal_strlit("1");
        reveal_strlit("2");
        reveal_strlit("3");
        reveal_strlit("4");
        reveal_strlit("5");
        reveal_strlit("6");
        reveal_strlit("7");
        reveal_strlit("8");
        reveal_strlit("9");
    }
    if d == 0 { "0" }
    else if d == 1 { "1" }
    else if d == 2 { "2" }
    else if d == 3 { "3" }
    else if d == 4 { "4" }
    else if d == 5 { "5" }
    else if d == 6 { "6" }
    else if d == 7 { "7" }
    else if d == 8 { "8" }
    else { "9" }
}

/// Renders `n` as its decimal numeral.
pub fn to_decimal(n: u64) -> (r: String)
    ensures
        r@ == decimal_seq(n as nat),
    decreases n,
{
    if n < 10 {
        let r = String::from_str(digit_str(n));
        proof {
            assert(r@ =~= decimal_seq(n as nat));
        }
        r
    } else {
        let mut s = to_decimal(n / 10);
        s.append(digit_str(n % 10));
        proof {
            assert(s@ =~= decimal_seq(n as nat));
        }
        s
    }
}

} // verus!
