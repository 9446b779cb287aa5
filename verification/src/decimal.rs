//! Numbers in decimal notation: written out as bytes and as text, and read
//! back.

use vstd::prelude::*;
use vstd::string::{StringExecFns, StringSliceAdditionalSpecFns};

verus! {

/// The decimal digits of `n` in ASCII, most significant first.
pub open spec fn decimal(n: nat) -> Seq<u8>
    decreases n,
{
    if n < 10 {
        seq![(48 + n) as u8]
    } else {
        decimal(n / 10).push((48 + n % 10) as u8)
    }
}

/// The decimal digits of `n` as text.
pub open spec fn decimal_text(n: nat) -> Seq<char> {
    decimal(n).map_values(|digit: u8| digit as char)
}

/// The number that the decimal digits `digits` denote.
pub open spec fn decimal_value(digits: Seq<u8>) -> nat
    decreases digits.len(),
{
    if digits.len() == 0 {
        0
    } else {
        decimal_value(digits.drop_last()) * 10 + (digits.last() - 48) as nat
    }
}

/// Law of the decimal notation: `decimal(n)` is made of digits alone, begins
/// with a zero only where `n` is zero, and denotes `n`.
pub proof fn lemma_decimal(n: nat)
    ensures
        decimal(n).len() >= 1,
        forall|i: int| 0 <= i < decimal(n).len() ==> 48 <= #[trigger] decimal(n)[i] <= 57,
        decimal(n)[0] == 48 <==> n == 0,
        decimal_value(decimal(n)) == n,
    decreases n,
{
    if n < 10 {
        assert(decimal(n).drop_last() =~= Seq::<u8>::empty());
        assert(decimal_value(decimal(n)) == decimal_value(Seq::<u8>::empty()) * 10 + n);
    } else {
        lemma_decimal(n / 10);
        let front = decimal(n / 10);
        assert(decimal(n).drop_last() =~= front);
        assert(decimal(n)[0] == front[0]);
    }
}

/// The decimal notation is read off unambiguously: two numbers whose digits,
/// each followed by something that is no digit, begin the same bytes are the
/// same number.
pub proof fn lemma_decimal_unambiguous(m: nat, n: nat, after_m: Seq<u8>, after_n: Seq<u8>)
    requires
        decimal(m) + after_m == decimal(n) + after_n,
        after_m.len() > 0 && !(48 <= after_m[0] <= 57),
        after_n.len() > 0 && !(48 <= after_n[0] <= 57),
    ensures
        m == n,
        after_m == after_n,
{
    let all = decimal(m) + after_m;
    let dm = decimal(m);
    let dn = decimal(n);
    lemma_decimal(m);
    lemma_decimal(n);
    if dm.len() < dn.len() {
        assert(all[dm.len() as int] == after_m[0]);
        assert((dn + after_n)[dm.len() as int] == dn[dm.len() as int]);
    }
    if dn.len() < dm.len() {
        assert((dn + after_n)[dn.len() as int] == after_n[0]);
        assert(all[dn.len() as int] == dm[dn.len() as int]);
    }
    assert(dm =~= dn) by {
        assert forall|i: int| 0 <= i < dm.len() implies dm[i] == dn[i] by {
            assert(all[i] == dm[i]);
            assert((dn + after_n)[i] == dn[i]);
        }
    }
    assert(after_m =~= after_n) by {
        assert(all.len() == dm.len() + after_m.len());
        assert(all.len() == dn.len() + after_n.len());
        assert forall|i: int| 0 <= i < after_m.len() implies after_m[i] == after_n[i] by {
            assert(all[dm.len() + i] == after_m[i]);
            assert((dn + after_n)[dn.len() + i] == after_n[i]);
        }
    }
}

/// Every byte is a decimal digit.
pub open spec fn all_digits(digits: Seq<u8>) -> bool {
    forall|i: int| 0 <= i < digits.len() ==> 48 <= #[trigger] digits[i] <= 57
}

/// The number that `text` is the decimal notation of, where it is one and the
/// number is `max` at most: one digit or more, after a plus sign or without,
/// and nothing else.
pub open spec fn parsed(text: Seq<u8>, max: nat) -> Option<nat> {
    let digits = if text.len() > 0 && text[0] == 43 {
        text.skip(1)
    } else {
        text
    };
    if digits.len() > 0 && all_digits(digits) && decimal_value(digits) <= max {
        Some(decimal_value(digits))
    } else {
        None
    }
}

/// More digits denote no smaller a number.
pub proof fn lemma_value_grows(digits: Seq<u8>, count: int)
    requires
        all_digits(digits),
        0 <= count <= digits.len(),
    ensures
        decimal_value(digits.take(count)) <= decimal_value(digits),
    decreases digits.len() - count,
{
    if count < digits.len() {
        lemma_value_grows(digits, count + 1);
        assert(digits.take(count + 1).drop_last() =~= digits.take(count));
        assert(digits.take(count + 1).last() == digits[count]);
    } else {
        assert(digits.take(count) =~= digits);
    }
}

/// Law of the decimal notation: what is written out is read back. The digits
/// of a number that is `max` at most are the notation of that number.
pub proof fn lemma_parsed_decimal(n: nat, max: nat)
    requires
        n <= max,
    ensures
        parsed(decimal(n), max) == Some(n),
{
    lemma_decimal(n);
}

/// Reads `text` as a number in decimal notation that is `max` at most.
pub fn parse_number(text: &str, max: u64) -> (number: Option<u64>)
    ensures
        match number {
            Some(n) => parsed(text.spec_bytes(), max as nat) == Some(n as nat),
            None => parsed(text.spec_bytes(), max as nat) is None,
        },
{
    let bytes = text.as_bytes();
    let start: usize = if bytes.len() > 0 && bytes[0] == 43 {
        1
    } else {
        0
    };
    if start == bytes.len() {
        return None;
    }
    let ghost digits = bytes@.skip(start as int);
    proof {
        assert(bytes@.skip(0) =~= bytes@);
        assert(decimal_value(digits.take(0)) == 0);
    }
    let mut value: u64 = 0;
    let mut i: usize = start;
    while i < bytes.len()
        invariant
            start <= i <= bytes.len(),
            start < bytes.len(),
            bytes@ == text.spec_bytes(),
            digits == bytes@.skip(start as int),
            digits == if bytes@.len() > 0 && bytes@[0] == 43 {
                bytes@.skip(1)
            } else {
                bytes@
            },
            all_digits(digits.take(i - start)),
            value == decimal_value(digits.take(i - start)),
            value <= max,
        decreases bytes.len() - i,
    {
        let byte = bytes[i];
        let ghost read = digits.take(i - start + 1);
        proof {
            assert(read.drop_last() =~= digits.take(i - start));
            assert(read.last() == byte);
        }
        if byte < 48 || byte > 57 {
            assert(digits[i - start] == byte);
            return None;
        }
        let digit = (byte - 48) as u64;
        proof {
            assert(decimal_value(read) == value * 10 + digit);
            assert forall|k: int| 0 <= k < read.len() implies 48 <= #[trigger] read[k] <= 57 by {
                if k < i - start {
                    assert(read[k] == digits.take(i - start)[k]);
                }
            }
            if all_digits(digits) {
                lemma_value_grows(digits, i - start + 1);
            }
        }
        let tenfold = match value.checked_mul(10) {
            Some(tenfold) => tenfold,
            None => {
                return None;
            },
        };
        let next = match tenfold.checked_add(digit) {
            Some(next) => next,
            None => {
                return None;
            },
        };
        if next > max {
            return None;
        }
        value = next;
        i = i + 1;
    }
    assert(digits.take(bytes.len() - start) =~= digits);
    Some(value)
}

/// Appends the decimal digits of `n`.
pub fn push_decimal(out: &mut Vec<u8>, n: u128)
    ensures
        final(out)@ == old(out)@ + decimal(n as nat),
    decreases n,
{
    if n >= 10 {
        push_decimal(out, n / 10);
    }
    let digit: u8 = (n % 10) as u8;
    out.push(48 + digit);
    assert(out@ =~= old(out)@ + decimal(n as nat));
}

/// The digit `digit` as text.
fn digit_text(digit: u8) -> (text: &'static str)
    requires
        digit < 10,
    ensures
        text@ == seq![((48 + digit) as u8) as char],
{
    proof {
        reveal_strlit("0");
        reveal_strlit("1");
        reveal_strlit("2");
        reveal_strlit("3");
        reveal_strlit("4");
        reveal_strlit("5");
        reveal_strlit("6");
        reveal_strlit("7");
        reveal_strlit("8");
        reveal_strlit("9");
    }
    let text = match digit {
        0 => "0",
        1 => "1",
        2 => "2",
        3 => "3",
        4 => "4",
        5 => "5",
        6 => "6",
        7 => "7",
        8 => "8",
        _ => "9",
    };
    assert(text@ =~= seq![((48 + digit) as u8) as char]);
    text
}

/// Appends the decimal digits of `n`.
pub fn push_decimal_text(out: &mut String, n: u16)
    ensures
        final(out)@ == old(out)@ + decimal_text(n as nat),
    decreases n,
{
    if n >= 10 {
        push_decimal_text(out, n / 10);
    }
    out.append(digit_text((n % 10) as u8));
    assert(out@ =~= old(out)@ + decimal_text(n as nat));
}

} // verus!
