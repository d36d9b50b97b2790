//! Numbers written out read as the numbers they are.

use vstd::arithmetic::div_mod::lemma_mod_breakdown;
use vstd::arithmetic::power::{lemma_pow_positive, pow};
use vstd::prelude::*;

use crate::text::{decimal, digit_char, padded_hex};

verus! {

/// What a digit is worth, those above nine being letters.
pub open spec fn digit_value(c: char) -> int {
    if '0' <= c && c <= '9' {
        c as int - '0' as int
    } else {
        c as int - 'a' as int + 10
    }
}

/// What a text is worth that is read as a number in some base.
pub open spec fn read_in_base(text: Seq<char>, base: int) -> int
    decreases text.len(),
{
    if text.len() == 0 {
        0
    } else {
        read_in_base(text.drop_last(), base) * base + digit_value(text.last())
    }
}

/// A number in base ten is written with the ten digits, without a leading zero unless it is
/// zero, and reads as itself.
pub proof fn decimals_read_as_themselves(n: nat)
    ensures
        read_in_base(decimal(n), 10) == n,
        decimal(n).len() > 0,
        n > 0 ==> decimal(n)[0] != '0',
        n == 0 ==> decimal(n) == seq!['0'],
        forall|i: int|
            0 <= i < decimal(n).len() ==> '0' <= #[trigger] decimal(n)[i] && decimal(n)[i] <= '9',
    decreases n,
{
    let text = decimal(n);
    if n < 10 {
        assert(text.drop_last() =~= Seq::empty());
        assert(read_in_base(text.drop_last(), 10) == 0);
        assert(text[0] == (48 + n) as char);
    } else {
        let rest = decimal(n / 10);
        decimals_read_as_themselves(n / 10);
        assert(text.drop_last() =~= rest);
        assert(text[0] == rest[0]);
        assert forall|i: int| 0 <= i < text.len() implies '0' <= #[trigger] text[i] && text[i]
            <= '9' by {
            if i < rest.len() {
                assert(text[i] == rest[i]);
            }
        }
    }
}

/// A number in base sixteen is written with as many digits as asked for, and reads as itself, or
/// as what is left of it where there are too few.
pub proof fn hex_digits_read_as_the_number(n: nat, digits: nat)
    ensures
        padded_hex(n, digits).len() == digits,
        read_in_base(padded_hex(n, digits), 16) == (n as int) % pow(16, digits),
        pow(16, digits) > 0,
        forall|i: int|
            0 <= i < digits ==> {
                let c = #[trigger] padded_hex(n, digits)[i];
                ('0' <= c && c <= '9') || ('a' <= c && c <= 'f')
            },
    decreases digits,
{
    reveal(pow);
    let text = padded_hex(n, digits);
    lemma_pow_positive(16, digits);
    if digits > 0 {
        let fewer = (digits - 1) as nat;
        let rest = padded_hex(n / 16, fewer);
        hex_digits_read_as_the_number(n / 16, fewer);
        assert(text.drop_last() =~= rest);
        let p = pow(16, fewer);
        assert(pow(16, digits) == 16 * p);
        lemma_mod_breakdown(n as int, 16, p);
        assert(text.last() == digit_char((n % 16) as int));
        assert(digit_value(text.last()) == n % 16);
        assert forall|i: int| 0 <= i < digits implies {
            let c = #[trigger] text[i];
            ('0' <= c && c <= '9') || ('a' <= c && c <= 'f')
        } by {
            if i < rest.len() {
                assert(text[i] == rest[i]);
            }
        }
    } else {
        assert(pow(16, 0) == 1);
    }
}

} // verus!
