//! Numbers and addresses as text.

use vstd::prelude::*;

use crate::net::{self, Ipv4Addr};

verus! {

/// The character of a decimal digit.
pub open spec fn digit_char(d: int) -> char {
    (d + 48) as char
}

/// Whether a character is a decimal digit.
pub open spec fn is_digit(c: char) -> bool {
    '0' <= c <= '9'
}

/// The value of a decimal digit.
pub open spec fn digit_value(c: char) -> int {
    c as int - 48
}

/// A number in decimal, without leading zeros.
pub open spec fn decimal(n: nat) -> Seq<char>
    decreases n,
{
    if n < 10 {
        seq![digit_char(n as int)]
    } else {
        decimal(n / 10).push(digit_char((n % 10) as int))
    }
}

/// The value of a string of digits.
pub open spec fn value_of(s: Seq<char>) -> int
    decreases s.len(),
{
    if s.len() == 0 {
        0
    } else {
        value_of(s.drop_last()) * 10 + digit_value(s.last())
    }
}

/// Whether a string is made of digits only.
pub open spec fn all_digits(s: Seq<char>) -> bool {
    forall|i: int| 0 <= i < s.len() ==> is_digit(#[trigger] s[i])
}

/// The digits of a number have its value.
pub proof fn lemma_decimal(n: nat)
    ensures
        all_digits(decimal(n)),
        value_of(decimal(n)) == n,
        decimal(n).len() > 0,
    decreases n,
{
    if n < 10 {
        assert(decimal(n).drop_last() =~= Seq::empty());
        assert(value_of(decimal(n).drop_last()) == 0);
    } else {
        lemma_decimal(n / 10);
        assert(decimal(n).drop_last() =~= decimal(n / 10));
    }
}

/// The part of a number that stands behind an optional plus sign.
pub open spec fn unsigned_part(s: Seq<char>) -> Seq<char> {
    if s.len() > 0 && s[0] == '+' {
        s.skip(1)
    } else {
        s
    }
}

/// The number that a string stands for: digits, possibly behind a plus sign, that fit the limit.
pub open spec fn number_in(s: Seq<char>, limit: nat) -> Option<nat> {
    let digits = unsigned_part(s);
    if digits.len() > 0 && all_digits(digits) && value_of(digits) <= limit {
        Some(value_of(digits) as nat)
    } else {
        None
    }
}

/// A number that is written in decimal and read back is the same number.
pub proof fn law_number_round_trip(n: nat, limit: nat)
    requires
        n <= limit,
    ensures
        number_in(decimal(n), limit) == Some(n),
{
    lemma_decimal(n);
    assert(is_digit(decimal(n)[0]));
}

/// Appends a decimal digit.
fn append_digit(out: &mut String, d: u8)
    requires
        d < 10,
    ensures
        final(out)@ == old(out)@.push(digit_char(d as int)),
{
    proof {
        reveal_strlit("0");
        reveal_strlit("1");
        reveal_strlit("2");
        reveal_strlit("3");
        reveal_strlit("4");
        reveal_strlit("5");
        reveal_strlit("6");
        reveal_strlit("7");
        reveal_strlit("8");
        reveal_strlit("9");
    }
    if d == 0 {
        out.append("0");
    } else if d == 1 {
        out.append("1");
    } else if d == 2 {
        out.append("2");
    } else if d == 3 {
        out.append("3");
    } else if d == 4 {
        out.append("4");
    } else if d == 5 {
        out.append("5");
    } else if d == 6 {
        out.append("6");
    } else if d == 7 {
        out.append("7");
    } else if d == 8 {
        out.append("8");
    } else {
        out.append("9");
    }
    assert(out@ =~= old(out)@.push(digit_char(d as int)));
}

/// Appends a number in decimal.
pub fn append_decimal(out: &mut String, n: u128)
    ensures
        final(out)@ == old(out)@ + decimal(n as nat),
    decreases n,
{
    if n >= 10 {
        append_decimal(out, n / 10);
    }
    append_digit(out, (n % 10) as u8);
    assert(out@ =~= old(out)@ + decimal(n as nat));
}

/// A number in decimal.
pub fn to_decimal(n: u128) -> (text: String)
    ensures
        text@ == decimal(n as nat),
{
    let mut text = String::new();
    append_decimal(&mut text, n);
    assert(text@ =~= decimal(n as nat));
    text
}

/// The characters of a string.
pub fn to_chars(s: &str) -> (chars: Vec<char>)
    ensures
        chars@ == s@,
{
    let mut chars: Vec<char> = Vec::new();
    let len: usize = s.unicode_len();
    let mut i: usize = 0;
    assert(s@.take(0) =~= Seq::empty());
    while i < len
        invariant
            i <= len,
            len == s@.len(),
            chars@ == s@.take(i as int),
        decreases len - i,
    {
        chars.push(s.get_char(i));
        i = i + 1;
        assert(chars@ =~= s@.take(i as int));
    }
    assert(s@.take(i as int) =~= s@);
    chars
}

/// The value of a character that is a digit.
pub fn digit_of(c: char) -> (d: Option<u8>)
    ensures
        d is Some == is_digit(c),
        d matches Some(d) ==> d < 10 && d == digit_value(c),
{
    if c == '0' {
        Some(0)
    } else if c == '1' {
        Some(1)
    } else if c == '2' {
        Some(2)
    } else if c == '3' {
        Some(3)
    } else if c == '4' {
        Some(4)
    } else if c == '5' {
        Some(5)
    } else if c == '6' {
        Some(6)
    } else if c == '7' {
        Some(7)
    } else if c == '8' {
        Some(8)
    } else if c == '9' {
        Some(9)
    } else {
        None
    }
}

proof fn lemma_value_grows(s: Seq<char>, i: int)
    requires
        all_digits(s),
        0 <= i <= s.len(),
    ensures
        0 <= value_of(s.take(i)) <= value_of(s),
    decreases s.len() - i,
{
    if i == s.len() {
        assert(s.take(i) =~= s);
        lemma_value_nonneg(s);
    } else {
        lemma_value_grows(s, i + 1);
        assert(s.take(i + 1).drop_last() =~= s.take(i));
        assert(s.take(i + 1).last() == s[i]);
        assert(is_digit(s[i]));
        assert forall|k: int| 0 <= k < s.take(i).len() implies is_digit(#[trigger] s.take(i)[k]) by {
            assert(s.take(i)[k] == s[k]);
        }
        lemma_value_nonneg(s.take(i));
    }
}

/// The value of digits is not negative.
pub proof fn lemma_value_nonneg(s: Seq<char>)
    requires
        all_digits(s),
    ensures
        value_of(s) >= 0,
    decreases s.len(),
{
    if s.len() > 0 {
        assert forall|k: int| 0 <= k < s.drop_last().len() implies is_digit(
            #[trigger] s.drop_last()[k],
        ) by {
            assert(s.drop_last()[k] == s[k]);
        }
        lemma_value_nonneg(s.drop_last());
        assert(is_digit(s[s.len() - 1]));
    }
}

/// Reads a number: digits, possibly behind a plus sign, that fit a `u64`.
pub fn read_number(text: &[char]) -> (number: Option<u64>)
    ensures
        number is Some == number_in(text@, u64::MAX as nat) is Some,
        number matches Some(n) ==> number_in(text@, u64::MAX as nat) == Some(n as nat),
{
    let start: usize = if text.len() > 0 && text[0] == '+' {
        1
    } else {
        0
    };
    let ghost digits = unsigned_part(text@);
    assert(digits =~= text@.skip(start as int));
    if start == text.len() {
        return None;
    }
    let mut value: u64 = 0;
    let mut i: usize = start;
    assert(digits.take(0) =~= Seq::empty());
    while i < text.len()
        invariant
            start <= i <= text@.len(),
            start <= 1,
            digits == unsigned_part(text@),
            digits == text@.skip(start as int),
            value == value_of(digits.take(i - start)),
            forall|k: int| 0 <= k < i - start ==> is_digit(#[trigger] digits[k]),
        decreases text@.len() - i,
    {
        proof {
            assert(digits[i - start] == text@[i as int]);
            assert(digits.take(i - start + 1).drop_last() =~= digits.take(i - start));
            assert(digits.take(i - start + 1).last() == digits[i - start]);
        }
        match digit_of(text[i]) {
            Some(d) => {
                let wide: u128 = value as u128 * 10 + d as u128;
                if wide > u64::MAX as u128 {
                    proof {
                        if all_digits(digits) {
                            lemma_value_grows(digits, i - start + 1);
                        }
                    }
                    return None;
                }
                value = wide as u64;
            },
            None => {
                return None;
            },
        }
        i = i + 1;
    }
    assert(digits.take(i - start) =~= digits);
    Some(value)
}

/// An address in dotted form.
pub open spec fn dotted(ip: u32) -> Seq<char> {
    decimal((ip / 0x100_0000) as nat).push('.') + decimal((ip / 0x1_0000 % 0x100) as nat).push('.')
        + decimal((ip / 0x100 % 0x100) as nat).push('.') + decimal((ip % 0x100) as nat)
}

/// Appends an address in dotted form.
pub fn append_ipv4(out: &mut String, ip: Ipv4Addr)
    ensures
        final(out)@ == old(out)@ + dotted(ip.bits),
{
    proof {
        reveal_strlit(".");
    }
    append_decimal(out, (ip.bits / 0x100_0000) as u128);
    out.append(".");
    append_decimal(out, (ip.bits / 0x1_0000 % 0x100) as u128);
    out.append(".");
    append_decimal(out, (ip.bits / 0x100 % 0x100) as u128);
    out.append(".");
    append_decimal(out, (ip.bits % 0x100) as u128);
    assert(out@ =~= old(out)@ + dotted(ip.bits));
}

/// An address in dotted form.
pub fn ipv4_to_string(ip: Ipv4Addr) -> (text: String)
    ensures
        text@ == dotted(ip.bits),
{
    let mut text = String::new();
    append_ipv4(&mut text, ip);
    assert(text@ =~= dotted(ip.bits));
    text
}

/// The first place of a character at or behind `from`; the length where there is none.
pub fn find_char(text: &Vec<char>, from: usize, c: char) -> (at: usize)
    requires
        from <= text@.len(),
    ensures
        from <= at <= text@.len(),
        forall|k: int| from <= k < at ==> text@[k] != c,
        at < text@.len() ==> text@[at as int] == c,
{
    let mut at: usize = from;
    while at < text.len()
        invariant
            from <= at <= text@.len(),
            forall|k: int| from <= k < at ==> text@[k] != c,
        decreases text@.len() - at,
    {
        if text[at] == c {
            return at;
        }
        at = at + 1;
    }
    at
}

/// The last place of a character.
pub open spec fn last_place(text: Seq<char>, c: char) -> Option<int>
    decreases text.len(),
{
    if text.len() == 0 {
        None
    } else if text.last() == c {
        Some(text.len() - 1)
    } else {
        last_place(text.drop_last(), c)
    }
}

/// The last place of a character.
pub fn find_last_char(text: &str, c: char) -> (at: Option<usize>)
    ensures
        at is Some == last_place(text@, c) is Some,
        at matches Some(at) ==> at < text@.len() && last_place(text@, c) == Some(at as int),
{
    let mut end: usize = text.unicode_len();
    assert(text@.take(end as int) =~= text@);
    while end > 0
        invariant
            end <= text@.len(),
            last_place(text@, c) == last_place(text@.take(end as int), c),
        decreases end,
    {
        assert(text@.take(end as int).drop_last() =~= text@.take(end - 1));
        if text.get_char(end - 1) == c {
            return Some(end - 1);
        }
        end = end - 1;
    }
    None
}

/// Whether two strings are the same.
pub fn same_chars(a: &Vec<char>, b: &Vec<char>) -> (same: bool)
    ensures
        same == (a@ == b@),
{
    if a.len() != b.len() {
        return false;
    }
    let mut i: usize = 0;
    while i < a.len()
        invariant
            i <= a@.len() == b@.len(),
            forall|k: int| 0 <= k < i ==> a@[k] == b@[k],
        decreases a@.len() - i,
    {
        if a[i] != b[i] {
            return false;
        }
        i = i + 1;
    }
    assert(a@ =~= b@);
    true
}

/// Reads the digits from `from` up to `to` as a number below 256.
fn read_octet(text: &Vec<char>, from: usize, to: usize) -> (octet: Option<u8>)
    requires
        from <= to <= text@.len(),
    ensures
        ({
            let digits = text@.subrange(from as int, to as int);
            digits.len() > 0 && all_digits(digits) && value_of(digits) < 256 ==> octet == Some(
                value_of(digits) as u8,
            )
        }),
{
    let ghost digits = text@.subrange(from as int, to as int);
    let mut value: u32 = 0;
    let mut i: usize = from;
    assert(digits.take(0) =~= Seq::empty());
    while i < to
        invariant
            from <= i <= to <= text@.len(),
            digits == text@.subrange(from as int, to as int),
            value < 256,
            value == value_of(digits.take(i - from)),
        decreases to - i,
    {
        proof {
            assert(digits[i - from] == text@[i as int]);
            assert(digits.take(i - from + 1).drop_last() =~= digits.take(i - from));
            assert(digits.take(i - from + 1).last() == digits[i - from]);
        }
        match digit_of(text[i]) {
            Some(d) => {
                value = value * 10 + d as u32;
                if value >= 256 {
                    proof {
                        if all_digits(digits) {
                            lemma_value_grows(digits, i - from + 1);
                        }
                    }
                    return None;
                }
            },
            None => {
                proof {
                    assert(!is_digit(digits[i - from]));
                }
                return None;
            },
        }
        i = i + 1;
    }
    assert(digits.take(i - from) =~= digits);
    Some(value as u8)
}

/// Where the dots of an address in dotted form stand, and what stands between them.
proof fn lemma_dotted_layout(text: Seq<char>, ip: u32)
    requires
        text == dotted(ip),
    ensures
        ({
            let a = decimal((ip / 0x100_0000) as nat);
            let b = decimal((ip / 0x1_0000 % 0x100) as nat);
            let c = decimal((ip / 0x100 % 0x100) as nat);
            let d = decimal((ip % 0x100) as nat);
            let first = a.len() as int;
            let second = first + 1 + b.len();
            let third = second + 1 + c.len();
            &&& text.len() == third + 1 + d.len()
            &&& text[first] == '.' && text[second] == '.' && text[third] == '.'
            &&& text.subrange(0, first) == a
            &&& text.subrange(first + 1, second) == b
            &&& text.subrange(second + 1, third) == c
            &&& text.subrange(third + 1, text.len() as int) == d
            &&& forall|k: int| 0 <= k < first ==> text[k] != '.'
            &&& forall|k: int| first < k < second ==> text[k] != '.'
            &&& forall|k: int| second < k < third ==> text[k] != '.'
        }),
{
    let a = decimal((ip / 0x100_0000) as nat);
    let b = decimal((ip / 0x1_0000 % 0x100) as nat);
    let c = decimal((ip / 0x100 % 0x100) as nat);
    let d = decimal((ip % 0x100) as nat);
    lemma_decimal((ip / 0x100_0000) as nat);
    lemma_decimal((ip / 0x1_0000 % 0x100) as nat);
    lemma_decimal((ip / 0x100 % 0x100) as nat);
    lemma_decimal((ip % 0x100) as nat);
    let first = a.len() as int;
    let second = first + 1 + b.len();
    let third = second + 1 + c.len();
    assert(text.subrange(0, first) =~= a);
    assert(text.subrange(first + 1, second) =~= b);
    assert(text.subrange(second + 1, third) =~= c);
    assert(text.subrange(third + 1, text.len() as int) =~= d);
    assert forall|k: int| 0 <= k < first implies text[k] != '.' by {
        assert(text[k] == a[k]);
        assert(is_digit(a[k]));
    }
    assert forall|k: int| first < k < second implies text[k] != '.' by {
        assert(text[k] == b[k - first - 1]);
        assert(is_digit(b[k - first - 1]));
    }
    assert forall|k: int| second < k < third implies text[k] != '.' by {
        assert(text[k] == c[k - second - 1]);
        assert(is_digit(c[k - second - 1]));
    }
}

/// An address that is written in dotted form can be read back: no other address is written so.
#[verifier::rlimit(50)]
#[verifier::spinoff_prover]
pub proof fn law_address_round_trip(a: u32, b: u32)
    requires
        dotted(a) == dotted(b),
    ensures
        a == b,
{
    lemma_dotted_layout(dotted(a), a);
    lemma_dotted_layout(dotted(b), b);
    lemma_decimal((a / 0x100_0000) as nat);
    lemma_decimal((b / 0x100_0000) as nat);
    lemma_decimal((a / 0x1_0000 % 0x100) as nat);
    lemma_decimal((b / 0x1_0000 % 0x100) as nat);
    lemma_decimal((a / 0x100 % 0x100) as nat);
    lemma_decimal((b / 0x100 % 0x100) as nat);
    lemma_decimal((a % 0x100) as nat);
    lemma_decimal((b % 0x100) as nat);
    let text = dotted(a);
    let (a1, b1) = (
        decimal((a / 0x100_0000) as nat).len() as int,
        decimal((b / 0x100_0000) as nat).len() as int,
    );
    assert(a1 == b1) by {
        assert(text[a1] == '.' && text[b1] == '.');
    }
    let a2 = a1 + 1 + decimal((a / 0x1_0000 % 0x100) as nat).len();
    let b2 = b1 + 1 + decimal((b / 0x1_0000 % 0x100) as nat).len();
    assert(a2 == b2) by {
        assert(text[a2] == '.' && text[b2] == '.');
    }
    let a3 = a2 + 1 + decimal((a / 0x100 % 0x100) as nat).len();
    let b3 = b2 + 1 + decimal((b / 0x100 % 0x100) as nat).len();
    assert(a3 == b3) by {
        assert(text[a3] == '.' && text[b3] == '.');
    }
}

/// Reads an address in dotted form.
pub fn read_ipv4(text: &Vec<char>) -> (ip: Option<Ipv4Addr>)
    ensures
        ip matches Some(ip) ==> text@ == dotted(ip.bits),
        ip is None ==> forall|bits: u32| text@ != #[trigger] dotted(bits),
{
    let first: usize = find_char(text, 0, '.');
    if first == text.len() {
        proof {
            assert forall|bits: u32| text@ != #[trigger] dotted(bits) by {
                if text@ == dotted(bits) {
                    lemma_dotted_layout(text@, bits);
                }
            }
        }
        return None;
    }
    let second: usize = find_char(text, first + 1, '.');
    if second == text.len() {
        proof {
            assert forall|bits: u32| text@ != #[trigger] dotted(bits) by {
                if text@ == dotted(bits) {
                    lemma_dotted_layout(text@, bits);
                    let a = decimal((bits / 0x100_0000) as nat).len() as int;
                    assert(text@[a] == '.');
                }
            }
        }
        return None;
    }
    let third: usize = find_char(text, second + 1, '.');
    if third == text.len() {
        proof {
            assert forall|bits: u32| text@ != #[trigger] dotted(bits) by {
                if text@ == dotted(bits) {
                    lemma_dotted_layout(text@, bits);
                    let a = decimal((bits / 0x100_0000) as nat).len() as int;
                    let b = a + 1 + decimal((bits / 0x1_0000 % 0x100) as nat).len();
                    assert(text@[a] == '.' && text@[b] == '.');
                }
            }
        }
        return None;
    }
    let a = read_octet(text, 0, first);
    let b = read_octet(text, first + 1, second);
    let c = read_octet(text, second + 1, third);
    let d = read_octet(text, third + 1, text.len());
    proof {
        assert forall|bits: u32| text@ == #[trigger] dotted(bits) implies a == Some(
            (bits / 0x100_0000) as u8,
        ) && b == Some((bits / 0x1_0000 % 0x100) as u8) && c == Some((bits / 0x100 % 0x100) as u8)
            && d == Some((bits % 0x100) as u8) by {
            lemma_dotted_layout(text@, bits);
            lemma_decimal((bits / 0x100_0000) as nat);
            lemma_decimal((bits / 0x1_0000 % 0x100) as nat);
            lemma_decimal((bits / 0x100 % 0x100) as nat);
            lemma_decimal((bits % 0x100) as nat);
            let p = decimal((bits / 0x100_0000) as nat).len() as int;
            let q = p + 1 + decimal((bits / 0x1_0000 % 0x100) as nat).len();
            let r = q + 1 + decimal((bits / 0x100 % 0x100) as nat).len();
            assert(text@[p] == '.' && text@[q] == '.' && text@[r] == '.');
            assert(p == first);
            assert(q == second);
            assert(r == third);
        }
    }
    match (a, b, c, d) {
        (Some(a), Some(b), Some(c), Some(d)) => {
            let ip = Ipv4Addr::new(a, b, c, d);
            proof {
                assert forall|bits: u32| text@ == #[trigger] dotted(bits) implies ip.bits == bits by {
                    net::lemma_be32_round_trip(bits);
                }
            }
            let written = to_chars(ipv4_to_string(ip).as_str());
            if same_chars(&written, text) {
                Some(ip)
            } else {
                None
            }
        },
        _ => None,
    }
}

/// A number is written digit by digit: the last digit stands behind those of the rest.
pub proof fn law_decimal_appends_digits(n: nat, d: nat)
    requires
        d < 10,
    ensures
        decimal(d).len() == 1,
        decimal(d)[0] as int == '0' as int + d,
        n > 0 ==> decimal(n * 10 + d) == decimal(n) + decimal(d),
{
    if n > 0 {
        assert((n * 10 + d) / 10 == n && (n * 10 + d) % 10 == d);
        assert(decimal(n) + decimal(d) =~= decimal(n).push(digit_char(d as int)));
    }
}

/// An address is written as its four bytes in decimal, the most significant first, with dots between
/// them.
pub proof fn law_dotted_form(a: u8, b: u8, c: u8, d: u8)
    ensures
        dotted((a * 0x100_0000 + b * 0x1_0000 + c * 0x100 + d) as u32) == decimal(a as nat)
            + seq!['.'] + decimal(b as nat) + seq!['.'] + decimal(c as nat) + seq!['.'] + decimal(
            d as nat,
        ),
{
    let ip = (a * 0x100_0000 + b * 0x1_0000 + c * 0x100 + d) as u32;
    assert(ip / 0x100_0000 == a);
    assert(ip / 0x1_0000 == a * 0x100 + b);
    assert(ip / 0x100 == a * 0x1_0000 + b * 0x100 + c);
    assert((a * 0x100 + b) % 0x100 == b);
    assert((a * 0x1_0000 + b * 0x100 + c) % 0x100 == c);
    assert(ip % 0x100 == d);
    assert(dotted(ip) =~= decimal(a as nat) + seq!['.'] + decimal(b as nat) + seq!['.'] + decimal(
        c as nat,
    ) + seq!['.'] + decimal(d as nat));
}

/// A number may stand behind a plus sign. What is empty, holds another character, or is larger than
/// the limit is no number.
pub proof fn law_what_is_a_number(s: Seq<char>, n: nat, limit: nat, i: int)
    ensures
        number_in(decimal(n), limit) == if n <= limit {
            Some(n)
        } else {
            None
        },
        number_in(seq!['+'] + decimal(n), limit) == if n <= limit {
            Some(n)
        } else {
            None
        },
        s.len() == 0 ==> number_in(s, limit) is None,
        s == seq!['+'] ==> number_in(s, limit) is None,
        0 <= i < s.len() && !('0' <= s[i] <= '9') && (i > 0 || s[i] != '+') ==> number_in(s, limit)
            is None,
{
    lemma_decimal(n);
    assert(is_digit(decimal(n)[0]));
    assert((seq!['+'] + decimal(n)).skip(1) =~= decimal(n));
    if 0 <= i < s.len() && !('0' <= s[i] <= '9') && (i > 0 || s[i] != '+') {
        let digits = unsigned_part(s);
        if s[0] == '+' {
            assert(digits[i - 1] == s[i]);
        } else {
            assert(digits[i] == s[i]);
        }
    }
}

/// The last place of a character has none behind it.
pub proof fn law_last_place_has_none_behind(front: Seq<char>, c: char, back: Seq<char>)
    requires
        forall|k: int| 0 <= k < back.len() ==> back[k] != c,
    ensures
        last_place(front.push(c) + back, c) == Some(front.len() as int),
        last_place(back, c) is None,
    decreases back.len(),
{
    let s = front.push(c) + back;
    if back.len() > 0 {
        let rest = back.drop_last();
        law_last_place_has_none_behind(front, c, rest);
        assert(s.drop_last() =~= front.push(c) + rest);
        assert(back[back.len() - 1] != c);
    } else {
        assert(s =~= front.push(c));
    }
}

} // verus!
