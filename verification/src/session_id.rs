//! The names of streaming sessions.

use vstd::arithmetic::div_mod::lemma_div_denominator;
use vstd::arithmetic::power::{lemma_pow_positive, pow};
use vstd::prelude::*;

verus! {

/// The least number of digits in a session id.
pub const MIN_DIGITS: usize = 16;

/// The lower-case hexadecimal digit of a number below 16.
pub open spec fn digit(n: int) -> char {
    if n < 10 {
        ('0' as int + n) as char
    } else {
        ('a' as int + (n - 10)) as char
    }
}

/// The hexadecimal digits of `n`, with zeros in front up to `width` digits.
pub open spec fn hex(n: nat, width: nat) -> Seq<char>
    decreases n, width,
{
    if n == 0 && width == 0 {
        Seq::empty()
    } else {
        let rest = if width == 0 { 0 } else { (width - 1) as nat };
        hex(n / 16, rest).push(digit((n % 16) as int))
    }
}

/// The session id that stands for the number `n`.
pub open spec fn id_text(n: u128) -> Seq<char> {
    hex(n as nat, MIN_DIGITS as nat)
}

/// The number that a sequence of hexadecimal digits stands for.
pub open spec fn number_of(text: Seq<char>) -> nat
    decreases text.len(),
{
    if text.len() == 0 {
        0
    } else {
        let last = text.last() as int;
        let value = if last < 'a' as int { last - '0' as int } else { last - 'a' as int + 10 };
        number_of(text.drop_last()) * 16 + value as nat
    }
}

/// Whether a character is one of `0` to `9` and `a` to `f`.
pub open spec fn is_digit(c: char) -> bool {
    '0' <= c <= '9' || 'a' <= c <= 'f'
}

/// The digits of a number give the number back, whatever the width, and are digits.
proof fn lemma_hex(n: nat, width: nat)
    ensures
        number_of(hex(n, width)) == n,
        hex(n, width).len() >= width,
        forall|i: int| 0 <= i < hex(n, width).len() ==> is_digit(#[trigger] hex(n, width)[i]),
    decreases n, width,
{
    if n != 0 || width != 0 {
        let rest = if width == 0 { 0 } else { (width - 1) as nat };
        lemma_hex(n / 16, rest);
        let head = hex(n / 16, rest);
        assert(hex(n, width).drop_last() =~= head);
        assert(hex(n, width).last() == digit((n % 16) as int));
    }
}

/// How many numbers `k` hexadecimal digits can write.
spec fn capacity(k: nat) -> nat
    decreases k,
{
    if k == 0 {
        1
    } else {
        16 * capacity((k - 1) as nat)
    }
}

/// A number that `k` digits can write takes no more than `k` digits.
proof fn lemma_hex_len(n: nat, width: nat, k: nat)
    requires
        n < capacity(k),
        width <= k,
    ensures
        hex(n, width).len() <= k,
    decreases k,
{
    if n != 0 || width != 0 {
        let rest = if width == 0 { 0 } else { (width - 1) as nat };
        lemma_hex_len(n / 16, rest, (k - 1) as nat);
    }
}

/// A session id holds 16 to 32 characters, and every one of them is a digit or one of the
/// letters `a` to `f`: it needs no escaping in a query string.
pub proof fn law_session_id_form(n: u128)
    ensures
        16 <= id_text(n).len() <= 32,
        forall|i: int| 0 <= i < id_text(n).len() ==> is_digit(#[trigger] id_text(n)[i]),
{
    lemma_hex(n as nat, MIN_DIGITS as nat);
    assert(capacity(32) == u128::MAX + 1) by {
        reveal_with_fuel(capacity, 33);
    }
    lemma_hex_len(n as nat, MIN_DIGITS as nat, 32);
}

/// A number that takes more than `width` digits is written without a zero in front.
proof fn lemma_hex_wide(n: nat, width: nat)
    requires
        n >= capacity(width),
    ensures
        hex(n, width).len() > width,
        hex(n, width)[0] != '0',
    decreases n,
{
    let rest = if width == 0 { 0 } else { (width - 1) as nat };
    let head = hex(n / 16, rest);
    assert(hex(n, width) == head.push(digit((n % 16) as int)));
    if width != 0 || n >= 16 {
        lemma_capacity(width);
        lemma_hex_wide(n / 16, rest);
        assert(hex(n, width)[0] == head[0]);
    }
}

/// Some number can always be written.
proof fn lemma_capacity(k: nat)
    ensures
        capacity(k) >= 1,
    decreases k,
{
    if k > 0 {
        lemma_capacity((k - 1) as nat);
    }
}

/// The number that a session id is made of can be read back from it. The id holds more than
/// 16 digits exactly where the number takes more than 64 bits, and then no zero stands in
/// front.
pub proof fn law_session_id_round_trip(n: u128)
    ensures
        number_of(id_text(n)) == n,
        id_text(n).len() > 16 <==> n > u64::MAX,
        n > u64::MAX ==> id_text(n)[0] != '0',
{
    lemma_hex(n as nat, MIN_DIGITS as nat);
    assert(capacity(16) == u64::MAX + 1) by {
        reveal_with_fuel(capacity, 17);
    }
    if n > u64::MAX {
        lemma_hex_wide(n as nat, MIN_DIGITS as nat);
    } else {
        lemma_hex_len(n as nat, MIN_DIGITS as nat, 16);
    }
}

/// Different numbers make different session ids.
pub proof fn law_session_ids_differ(n: u128, m: u128)
    requires
        n != m,
    ensures
        id_text(n) != id_text(m),
{
    lemma_hex(n as nat, MIN_DIGITS as nat);
    lemma_hex(m as nat, MIN_DIGITS as nat);
}

/// Digit by digit, `hex` is the number in base 16.
proof fn lemma_hex_digits(n: nat, width: nat, k: nat)
    requires
        k < hex(n, width).len(),
    ensures
        hex(n, width)[hex(n, width).len() - 1 - k] == "0123456789abcdef"@[(n as int / pow(16, k))
            % 16],
    decreases k,
{
    reveal_strlit("0123456789abcdef");
    reveal(pow);
    let rest = if width == 0 { 0 } else { (width - 1) as nat };
    let head = hex(n / 16, rest);
    assert(hex(n, width) == head.push(digit((n % 16) as int)));
    if k == 0 {
        assert(pow(16, 0) == 1);
        assert(n as int / 1 == n as int);
    } else {
        let less = (k - 1) as nat;
        lemma_hex_digits(n / 16, rest, less);
        lemma_pow_positive(16, less);
        lemma_div_denominator(n as int, 16, pow(16, less));
        assert(pow(16, k) == 16 * pow(16, less));
        assert(hex(n, width)[hex(n, width).len() - 1 - k] == head[head.len() - 1 - less]);
    }
}

/// A session id writes its number in base 16, the lowest digit last: the digit that `k`
/// others follow stands for the part of the number that counts in the `k`th power of 16.
pub proof fn law_session_id_digits(n: u128, k: nat)
    requires
        k < id_text(n).len(),
    ensures
        id_text(n)[id_text(n).len() - 1 - k] == "0123456789abcdef"@[(n as int / pow(16, k)) % 16],
{
    lemma_hex_digits(n as nat, MIN_DIGITS as nat, k);
}

/// The lower-case hexadecimal digit of `n`, as a text.
fn digit_text(n: u128) -> (text: &'static str)
    requires
        n < 16,
    ensures
        text@ == seq![digit(n as int)],
{
    proof {
        reveal_strlit("0");
        reveal_strlit("1");
        reveal_strlit("2");
        reveal_strlit("3");
        reveal_strlit("4");
        reveal_strlit("5");
        reveal_strlit("6");
        reveal_strlit("7");
        reveal_strlit("8");
        reveal_strlit("9");
        reveal_strlit("a");
        reveal_strlit("b");
        reveal_strlit("c");
        reveal_strlit("d");
        reveal_strlit("e");
        reveal_strlit("f");
    }
    match n {
        0 => "0",
        1 => "1",
        2 => "2",
        3 => "3",
        4 => "4",
        5 => "5",
        6 => "6",
        7 => "7",
        8 => "8",
        9 => "9",
        10 => "a",
        11 => "b",
        12 => "c",
        13 => "d",
        14 => "e",
        _ => "f",
    }
}

/// The session id that stands for `n`: at least 16 lower-case hexadecimal digits.
pub fn format_session_id(n: u128) -> (id: String)
    ensures
        id@ == id_text(n),
{
    let mut rest: u128 = n;
    let mut width: usize = MIN_DIGITS;
    let mut id: String = String::new();
    assert(id_text(n) =~= hex(rest as nat, width as nat) + id@);
    while rest != 0 || width != 0
        invariant
            id_text(n) == hex(rest as nat, width as nat) + id@,
        decreases rest, width,
    {
        let mut longer: String = digit_text(rest % 16).to_owned();
        longer.append(id.as_str());
        proof {
            let next = if width == 0 { 0 } else { (width - 1) as nat };
            assert(id_text(n) =~= hex(rest as nat / 16, next) + longer@);
        }
        id = longer;
        rest = rest / 16;
        if width != 0 {
            width = width - 1;
        }
    }
    assert(hex(0, 0) + id@ =~= id@);
    id
}

/// Calls `rand::random` for a number of 128 bits. Nothing is claimed of the number: any may
/// come back, and two calls need not agree. The call takes no input; it panics only where
/// the operating system gives no seed.
#[verifier::external_body]
pub(crate) fn random_number() -> (n: u128) {
    rand::random::<u128>()
}

/// A session id made of a random number.
pub fn session_id() -> (id: String)
    ensures
        exists|n: u128| id@ == #[trigger] id_text(n),
{
    format_session_id(random_number())
}

} // verus!
