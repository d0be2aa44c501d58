//! Numbers, keys and bytes as text, and text as numbers and keys.
use std::str::FromStr;
use vstd::prelude::*;
use vstd::string::{StrSliceExecFns, StringExecFns};

use crate::pubkey::{Pubkey, Signature};

verus! {

// ---------------------------------------------------------------------------------------------
// Numbers
// ---------------------------------------------------------------------------------------------

/// The decimal digit.
pub open spec fn digit(d: nat) -> char
    recommends
        d < 10,
{
    (48 + d) as char
}

/// The number in decimal.
pub open spec fn decimal(n: nat) -> Seq<char>
    decreases n,
{
    if n < 10 {
        seq![digit(n)]
    } else {
        decimal(n / 10).push(digit(n % 10))
    }
}

/// A number below one thousand in three digits.
pub open spec fn three_digits(n: nat) -> Seq<char> {
    seq![digit(n / 100), digit(n / 10 % 10), digit(n % 10)]
}

/// The number in decimal, with a comma before each group of three digits that others come before.
pub open spec fn thousands(n: nat) -> Seq<char>
    decreases n,
{
    if n < 1000 {
        decimal(n)
    } else {
        thousands(n / 1000).push(',') + three_digits(n % 1000)
    }
}

/// The decimal digit.
fn digit_text(d: u64) -> (r: &'static str)
    requires
        d < 10,
    ensures
        r@ == seq![digit(d as nat)],
{
    proof {
        reveal_strlit("0");
        reveal_strlit("1");
        reveal_strlit("2");
        reveal_strlit("3");
        reveal_strlit("4");
        reveal_strlit("5");
        reveal_strlit("6");
        reveal_strlit("7");
        reveal_strlit("8");
        reveal_strlit("9");
    }
    let r: &'static str = match d {
        0 => "0",
        1 => "1",
        2 => "2",
        3 => "3",
        4 => "4",
        5 => "5",
        6 => "6",
        7 => "7",
        8 => "8",
        _ => "9",
    };
    assert(r@ =~= seq![digit(d as nat)]);
    r
}

/// The number in decimal.
pub fn decimal_text(n: u64) -> (r: String)
    ensures
        r@ == decimal(n as nat),
    decreases n,
{
    if n < 10 {
        digit_text(n).to_owned()
    } else {
        let mut text = decimal_text(n / 10);
        text.append(digit_text(n % 10));
        assert(text@ =~= decimal(n as nat));
        text
    }
}

/// The number in decimal, its digits in groups of three.
pub fn format_thousands(value: u64) -> (r: String)
    ensures
        r@ == thousands(value as nat),
    decreases value,
{
    if value < 1000 {
        decimal_text(value)
    } else {
        let mut text = format_thousands(value / 1000);
        let low: u64 = value % 1000;
        proof {
            reveal_strlit(",");
        }
        text.append(",");
        text.append(digit_text(low / 100));
        text.append(digit_text(low / 10 % 10));
        text.append(digit_text(low % 10));
        assert(text@ =~= thousands(value as nat));
        text
    }
}

proof fn lemma_digits(n: nat)
    ensures
        forall|i: int| 0 <= i < decimal(n).len() ==> #[trigger] decimal(n)[i] != ',',
    decreases n,
{
    if n >= 10 {
        lemma_digits(n / 10);
        let before = decimal(n / 10);
        assert forall|i: int| 0 <= i < decimal(n).len() implies #[trigger] decimal(n)[i] != ',' by {
            if i < before.len() {
                assert(decimal(n)[i] == before[i]);
            }
        }
    }
}

proof fn lemma_three_digits(n: nat)
    requires
        n >= 1000,
    ensures
        decimal(n) == decimal(n / 1000) + three_digits(n % 1000),
{
    let a = n / 10;
    let b = n / 100;
    let c = n / 1000;
    assert(a / 10 == b && b / 10 == c) by (nonlinear_arith)
        requires
            a == n / 10,
            b == n / 100,
            c == n / 1000,
    ;
    assert(n % 10 == n % 1000 % 10 && a % 10 == n % 1000 / 10 % 10 && b % 10 == n % 1000 / 100)
        by (nonlinear_arith)
        requires
            a == n / 10,
            b == n / 100,
    ;
    assert(decimal(n) == decimal(a).push(digit(n % 10)));
    assert(decimal(a) == decimal(b).push(digit(a % 10)));
    assert(decimal(b) == decimal(c).push(digit(b % 10)));
    assert(decimal(n) =~= decimal(c) + three_digits(n % 1000));
}

proof fn lemma_no_comma(s: Seq<char>)
    requires
        forall|i: int| 0 <= i < s.len() ==> #[trigger] s[i] != ',',
    ensures
        s.filter(|c: char| c != ',') == s,
    decreases s.len(),
{
    reveal(Seq::filter);
    if s.len() > 0 {
        lemma_no_comma(s.drop_last());
        assert(s =~= s.drop_last().push(s.last()));
    }
}

/// Commas are all that is put between the digits of a number.
pub proof fn law_format_thousands(n: nat)
    ensures
        thousands(n).filter(|c: char| c != ',') == decimal(n),
    decreases n,
{
    if n < 1000 {
        lemma_digits(n);
        lemma_no_comma(decimal(n));
    } else {
        law_format_thousands(n / 1000);
        lemma_three_digits(n);
        lemma_no_comma(three_digits(n % 1000));
        let head = thousands(n / 1000);
        Seq::filter_distributes_over_add(
            head.push(','),
            three_digits(n % 1000),
            |c: char| c != ',',
        );
        assert(head.push(',').filter(|c: char| c != ',') == head.filter(|c: char| c != ',')) by {
            reveal(Seq::filter);
            assert(head.push(',').drop_last() =~= head);
        }
    }
}

/// A comma stands before each third digit from the end, and nowhere else. None comes first.
pub proof fn law_commas(n: nat, i: int)
    requires
        0 <= i < thousands(n).len(),
    ensures
        thousands(n)[i] == ',' <==> (thousands(n).len() - i) % 4 == 0,
        i == 0 ==> thousands(n)[i] != ',',
        n < 1000 ==> thousands(n).len() <= 3,
    decreases n,
{
    let s = thousands(n);
    if n < 1000 {
        lemma_digits(n);
        lemma_short(n);
    } else {
        let head = thousands(n / 1000);
        let low = three_digits(n % 1000);
        assert(s.len() == head.len() + 4);
        if i < head.len() {
            law_commas(n / 1000, i);
            assert(s[i] == head[i]);
            assert((head.len() - i + 4) % 4 == (head.len() - i) % 4) by (nonlinear_arith);
        } else if i == head.len() {
            assert(s[i] == ',');
            lemma_nonempty(n / 1000);
        } else {
            assert(s[i] == low[i - head.len() - 1]);
            assert(low[0] != ',' && low[1] != ',' && low[2] != ',');
            assert(s.len() - i == 1 || s.len() - i == 2 || s.len() - i == 3);
        }
    }
}

proof fn lemma_nonempty(n: nat)
    ensures
        thousands(n).len() > 0,
        decimal(n).len() > 0,
{
    reveal_with_fuel(decimal, 1);
}

proof fn lemma_short(n: nat)
    requires
        n < 1000,
    ensures
        0 < decimal(n).len() <= 3,
{
    reveal_with_fuel(decimal, 4);
}

/// The value of the digits, where all the characters are digits.
pub open spec fn digits_value(text: Seq<char>) -> Option<nat>
    decreases text.len(),
{
    if text.len() == 0 {
        Some(0)
    } else {
        match digits_value(text.drop_last()) {
            Some(v) => if '0' <= text.last() <= '9' {
                Some((10 * v + (text.last() as int - 48)) as nat)
            } else {
                None
            },
            None => None,
        }
    }
}

/// The number that the text is: digits, which a plus sign may come before.
pub open spec fn number(text: Seq<char>) -> Option<nat> {
    let digits = if text.len() > 0 && text[0] == '+' {
        text.skip(1)
    } else {
        text
    };
    if digits.len() == 0 {
        None
    } else {
        digits_value(digits)
    }
}

/// The number that the text is, where it is one that fits.
pub open spec fn number_u64(text: Seq<char>) -> Option<u64> {
    match number(text) {
        Some(v) => if v <= u64::MAX {
            Some(v as u64)
        } else {
            None
        },
        None => None,
    }
}

/// A number in decimal is read back as the number. It starts with a zero only where it is zero, and holds
/// digits alone.
pub proof fn law_decimal(n: nat)
    ensures
        decimal(n).len() > 0,
        decimal(n)[0] == '0' <==> n == 0,
        forall|i: int| 0 <= i < decimal(n).len() ==> '0' <= #[trigger] decimal(n)[i] <= '9',
        digits_value(decimal(n)) == Some(n),
        number(decimal(n)) == Some(n),
        n <= u64::MAX ==> number_u64(decimal(n)) == Some(n as u64),
    decreases n,
{
    let s = decimal(n);
    if n < 10 {
        assert(s.drop_last() =~= Seq::<char>::empty());
        assert(digits_value(s.drop_last()) == Some(0nat));
        assert(s.last() == digit(n));
        assert(s.last() as int == 48 + n);
    } else {
        law_decimal(n / 10);
        let before = decimal(n / 10);
        assert(s.drop_last() =~= before);
        assert(s.last() == digit(n % 10));
        assert(s.last() as int == 48 + n % 10);
        assert(10 * (n / 10) + n % 10 == n) by (nonlinear_arith);
        assert forall|i: int| 0 <= i < s.len() implies '0' <= #[trigger] s[i] <= '9' by {
            if i < before.len() {
                assert(s[i] == before[i]);
            }
        }
        assert(s[0] == before[0]);
    }
}

/// A text that is a number stays that number where zeros are put before it, and grows tenfold with a zero
/// behind it.
pub proof fn law_zeros(text: Seq<char>, zeros: nat)
    requires
        digits_value(text) is Some,
    ensures
        digits_value(Seq::new(zeros, |i: int| '0') + text) == digits_value(text),
        digits_value(text.push('0')) == Some(10 * digits_value(text)->Some_0),
    decreases text.len(),
{
    let before = Seq::new(zeros, |i: int| '0');
    assert(text.push('0').drop_last() =~= text);
    if text.len() == 0 {
        lemma_only_zeros(zeros);
        assert(before + text =~= before);
    } else {
        assert((before + text).drop_last() =~= before + text.drop_last());
        law_zeros(text.drop_last(), zeros);
    }
}

proof fn lemma_only_zeros(zeros: nat)
    ensures
        digits_value(Seq::new(zeros, |i: int| '0')) == Some(0nat),
    decreases zeros,
{
    let s = Seq::new(zeros, |i: int| '0');
    if zeros > 0 {
        lemma_only_zeros((zeros - 1) as nat);
        assert(s.drop_last() =~= Seq::new((zeros - 1) as nat, |i: int| '0'));
        assert(s.last() == '0');
    }
}

proof fn lemma_digits_prefix(text: Seq<char>, i: int)
    requires
        0 <= i <= text.len(),
        digits_value(text) is Some,
    ensures
        digits_value(text.take(i)) is Some,
        digits_value(text.take(i))->Some_0 <= digits_value(text)->Some_0,
    decreases text.len(),
{
    if i == text.len() {
        assert(text.take(i) =~= text);
    } else {
        assert(text.take(i) =~= text.drop_last().take(i));
        lemma_digits_prefix(text.drop_last(), i);
    }
}

/// The number that the text is, where it is one that fits.
pub fn parse_u64(text: &str) -> (r: Option<u64>)
    ensures
        r == number_u64(text@),
{
    let total: usize = text.unicode_len();
    let start: usize = if total > 0 && text.get_char(0) == '+' {
        1
    } else {
        0
    };
    let ghost digits = text@.skip(start as int);
    proof {
        assert(text@.skip(0) =~= text@);
    }
    if start == total {
        return None;
    }
    let mut value: u64 = 0;
    let mut i: usize = start;
    assert(digits.take(0) =~= Seq::<char>::empty());
    while i < total
        invariant
            start <= i <= total,
            start <= 1,
            total == text@.len(),
            digits == text@.skip(start as int),
            digits_value(digits.take(i - start)) == Some(value as nat),
            start < total,
            number(text@) == digits_value(digits),
        decreases total - i,
    {
        let c: char = text.get_char(i);
        let ghost k = i - start;
        proof {
            assert(digits.take(k + 1).drop_last() =~= digits.take(k));
            assert(digits.take(k + 1).last() == c);
            if digits_value(digits) is Some {
                lemma_digits_prefix(digits, k + 1);
            }
        }
        if !('0' <= c && c <= '9') {
            return None;
        }
        let d: u64 = (c as u32 - 48) as u64;
        if value > (u64::MAX - d) / 10 {
            return None;
        }
        value = 10 * value + d;
        i = i + 1;
    }
    assert(digits.take(i - start) =~= digits);
    Some(value)
}

// ---------------------------------------------------------------------------------------------
// Parts of texts
// ---------------------------------------------------------------------------------------------

/// Where the character first is; the length, where it is nowhere.
pub open spec fn first_at(text: Seq<char>, c: char) -> int
    decreases text.len(),
{
    if text.len() == 0 || text[0] == c {
        0
    } else {
        1 + first_at(text.skip(1), c)
    }
}

/// What comes before and after the first of the characters, where there is one.
pub open spec fn halves(text: Seq<char>, c: char) -> Option<(Seq<char>, Seq<char>)> {
    let i = first_at(text, c);
    if i < text.len() {
        Some((text.take(i), text.skip(i + 1)))
    } else {
        None
    }
}

/// A text is cut at the first of the characters: what comes before it is without one, and both parts with
/// the character between them are the text. Only a text without the character is not cut.
pub proof fn law_halves(text: Seq<char>, c: char)
    ensures
        match halves(text, c) {
            Some((before, after)) => {
                &&& text == before.push(c) + after
                &&& !before.contains(c)
            },
            None => !text.contains(c),
        },
    decreases text.len(),
{
    lemma_first_at(text, c);
    let i = first_at(text, c);
    if i < text.len() {
        assert(text =~= text.take(i).push(c) + text.skip(i + 1));
    }
}

/// The first of the characters is where none comes before it.
proof fn lemma_first_at(text: Seq<char>, c: char)
    ensures
        0 <= first_at(text, c) <= text.len(),
        first_at(text, c) < text.len() ==> text[first_at(text, c)] == c,
        forall|j: int| 0 <= j < first_at(text, c) ==> text[j] != c,
    decreases text.len(),
{
    if text.len() > 0 && text[0] != c {
        let rest = text.skip(1);
        lemma_first_at(rest, c);
        assert forall|j: int| 0 <= j < first_at(text, c) implies text[j] != c by {
            if j > 0 {
                assert(rest[j - 1] == text[j]);
            }
        }
    }
}

/// Two parts with a character between them that is not in the first are cut into these parts.
pub proof fn law_joined(before: Seq<char>, c: char, after: Seq<char>)
    requires
        !before.contains(c),
    ensures
        halves(before.push(c) + after, c) == Some((before, after)),
{
    let text = before.push(c) + after;
    lemma_first_at(text, c);
    let i = first_at(text, c);
    if i < before.len() {
        if i < text.len() {
            assert(text[i] == before[i]);
            assert(before.contains(c));
        }
    } else if i > before.len() {
        assert(text[before.len() as int] == c);
    }
    assert(text.take(i) =~= before);
    assert(text.skip(i + 1) =~= after);
}

/// What comes before and after the first of the characters, where there is one.
pub fn split_once<'a>(text: &'a str, c: char) -> (r: Option<(&'a str, &'a str)>)
    ensures
        match halves(text@, c) {
            Some((before, after)) => r is Some && r->Some_0.0@ == before && r->Some_0.1@ == after,
            None => r is None,
        },
{
    let total: usize = text.unicode_len();
    let mut i: usize = 0;
    assert(text@.skip(0) =~= text@);
    while i < total
        invariant
            i <= total,
            total == text@.len(),
            first_at(text@, c) == i + first_at(text@.skip(i as int), c),
        decreases total - i,
    {
        assert(text@.skip(i as int).skip(1) =~= text@.skip(i + 1));
        if text.get_char(i) == c {
            let before = text.substring_char(0, i);
            let after = text.substring_char(i + 1, total);
            assert(before@ =~= text@.take(i as int));
            assert(after@ =~= text@.skip(i + 1));
            return Some((before, after));
        }
        i = i + 1;
    }
    None
}

/// Whether the character has the Unicode property `White_Space`.
pub open spec fn is_space(c: char) -> bool {
    let n = c as int;
    9 <= n <= 13 || n == 32 || n == 0x85 || n == 0xa0 || n == 0x1680 || 0x2000 <= n <= 0x200a || n
        == 0x2028 || n == 0x2029 || n == 0x202f || n == 0x205f || n == 0x3000
}

/// Whether the character has the Unicode property `White_Space`.
fn check_space(c: char) -> (r: bool)
    ensures
        r == is_space(c),
{
    let n: u32 = c as u32;
    9 <= n && n <= 13 || n == 32 || n == 0x85 || n == 0xa0 || n == 0x1680 || 0x2000 <= n && n
        <= 0x200a || n == 0x2028 || n == 0x2029 || n == 0x202f || n == 0x205f || n == 0x3000
}

/// The text without the white space that it starts with.
pub open spec fn trimmed_start(text: Seq<char>) -> Seq<char>
    decreases text.len(),
{
    if text.len() > 0 && is_space(text[0]) {
        trimmed_start(text.skip(1))
    } else {
        text
    }
}

/// The text without the white space that it ends with.
pub open spec fn trimmed_end(text: Seq<char>) -> Seq<char>
    decreases text.len(),
{
    if text.len() > 0 && is_space(text.last()) {
        trimmed_end(text.drop_last())
    } else {
        text
    }
}

/// The text without the white space around it.
pub open spec fn trimmed(text: Seq<char>) -> Seq<char> {
    trimmed_end(trimmed_start(text))
}

/// What is left of a text has no white space at either end, and only white space was left out.
pub proof fn law_trimmed(text: Seq<char>)
    ensures
        trimmed(text).len() > 0 ==> !is_space(trimmed(text)[0]) && !is_space(trimmed(text).last()),
        exists|a: int, b: int|
            0 <= a <= b <= text.len() && trimmed(text) == #[trigger] text.subrange(a, b) && (forall|
                i: int,
            |
                0 <= i < a || b <= i < text.len() ==> is_space(#[trigger] text[i])),
{
    lemma_trimmed_start(text);
    let start = trimmed_start(text);
    lemma_trimmed_end(start);
    let a = text.len() - start.len();
    let b = a + trimmed(text).len();
    assert(trimmed(text) =~= text.subrange(a, b));
    assert forall|i: int| 0 <= i < a || b <= i < text.len() implies is_space(
        #[trigger] text[i],
    ) by {
        if i >= b {
            assert(start[i - a] == text[i]);
        }
    }
    if trimmed(text).len() > 0 {
        assert(trimmed(text)[0] == start[0]);
    }
}

proof fn lemma_trimmed_start(text: Seq<char>)
    ensures
        trimmed_start(text).len() <= text.len(),
        trimmed_start(text) == text.skip(text.len() - trimmed_start(text).len()),
        trimmed_start(text).len() > 0 ==> !is_space(trimmed_start(text)[0]),
        forall|i: int|
            0 <= i < text.len() - trimmed_start(text).len() ==> is_space(#[trigger] text[i]),
    decreases text.len(),
{
    if text.len() > 0 && is_space(text[0]) {
        let rest = text.skip(1);
        lemma_trimmed_start(rest);
        let kept = trimmed_start(text);
        assert(rest.skip(rest.len() - kept.len()) =~= text.skip(text.len() - kept.len()));
        assert forall|i: int| 0 <= i < text.len() - kept.len() implies is_space(
            #[trigger] text[i],
        ) by {
            if i > 0 {
                assert(rest[i - 1] == text[i]);
            }
        }
    } else {
        assert(text.skip(0) =~= text);
    }
}

proof fn lemma_trimmed_end(text: Seq<char>)
    ensures
        trimmed_end(text).len() <= text.len(),
        trimmed_end(text) == text.take(trimmed_end(text).len() as int),
        trimmed_end(text).len() > 0 ==> !is_space(trimmed_end(text).last()),
        forall|i: int| trimmed_end(text).len() <= i < text.len() ==> is_space(#[trigger] text[i]),
    decreases text.len(),
{
    if text.len() > 0 && is_space(text.last()) {
        let rest = text.drop_last();
        lemma_trimmed_end(rest);
        let kept = trimmed_end(text);
        assert(rest.take(kept.len() as int) =~= text.take(kept.len() as int));
        assert forall|i: int| kept.len() <= i < text.len() implies is_space(#[trigger] text[i]) by {
            if i < rest.len() {
                assert(rest[i] == text[i]);
            }
        }
    } else {
        assert(text.take(text.len() as int) =~= text);
    }
}

/// The text without the white space around it.
pub fn trim(text: &str) -> (r: &str)
    ensures
        r@ == trimmed(text@),
{
    let total: usize = text.unicode_len();
    let mut start: usize = 0;
    assert(text@.skip(0) =~= text@);
    while start < total && check_space(text.get_char(start))
        invariant
            start <= total,
            total == text@.len(),
            trimmed_start(text@) == trimmed_start(text@.skip(start as int)),
        decreases total - start,
    {
        assert(text@.skip(start as int).skip(1) =~= text@.skip(start + 1));
        start = start + 1;
    }
    assert(trimmed_start(text@) == text@.skip(start as int));
    let mut end: usize = total;
    assert(text@.subrange(start as int, total as int) =~= text@.skip(start as int));
    while start < end && check_space(text.get_char(end - 1))
        invariant
            start <= end <= total,
            total == text@.len(),
            trimmed(text@) == trimmed_end(text@.subrange(start as int, end as int)),
        decreases end,
    {
        assert(text@.subrange(start as int, end as int).drop_last() =~= text@.subrange(
            start as int,
            end - 1,
        ));
        end = end - 1;
    }
    text.substring_char(start, end)
}

// ---------------------------------------------------------------------------------------------
// Keys and bytes
// ---------------------------------------------------------------------------------------------

/// The number that the bytes are, the first of them the most significant.
pub open spec fn big_endian(bytes: Seq<u8>) -> nat
    decreases bytes.len(),
{
    if bytes.len() == 0 {
        0
    } else {
        256 * big_endian(bytes.drop_last()) + bytes.last() as nat
    }
}

/// The digits in base 58 of a number: none of zero.
pub open spec fn digits58(n: nat) -> Seq<char>
    decreases n,
{
    if n == 0 {
        Seq::empty()
    } else {
        digits58(n / 58).push(
            "123456789ABCDEFGHJKLMNPQRSTUVWXYZabcdefghijkmnopqrstuvwxyz"@[(n % 58) as int],
        )
    }
}

/// How many zeros the bytes start with.
pub open spec fn leading_zeros(bytes: Seq<u8>) -> nat
    decreases bytes.len(),
{
    if bytes.len() > 0 && bytes[0] == 0 {
        1 + leading_zeros(bytes.skip(1))
    } else {
        0
    }
}

/// The bytes in base 58: a `1` for each zero that they start with, then the digits of the number that
/// they are.
pub open spec fn base58(bytes: Seq<u8>) -> Seq<char> {
    Seq::new(leading_zeros(bytes), |i: int| '1') + digits58(big_endian(bytes))
}

/// `to_string` of a `solana_pubkey::Pubkey`: the key in base 58.
#[verifier::external_body]
pub(crate) fn pubkey_text(key: &Pubkey) -> (r: String)
    ensures
        r@ == base58(key@),
{
    solana_pubkey::Pubkey::new_from_array(key.bytes).to_string()
}

/// `from_str` of `solana_pubkey::Pubkey`: the key that the text is in base 58, where it is one.
#[verifier::external_body]
pub(crate) fn parse_pubkey(text: &str) -> (r: Option<Pubkey>)
    ensures
        r is Some ==> text@ == base58(r->Some_0@),
        forall|bytes: Seq<u8>|
            bytes.len() == 32 && text@ == #[trigger] base58(bytes) ==> r is Some,
{
    let key = solana_pubkey::Pubkey::from_str(text).ok()?;
    Some(Pubkey { bytes: key.to_bytes() })
}

/// `to_string` of a `solana_signature::Signature`: the signature in base 58.
#[verifier::external_body]
pub(crate) fn signature_text(signature: &Signature) -> (r: String)
    ensures
        r@ == base58(signature@),
{
    solana_signature::Signature::from(signature.bytes).to_string()
}

/// `to_string` of a `solana_hash::Hash`: the hash in base 58.
#[verifier::external_body]
pub(crate) fn hash_text(hash: &[u8; 32]) -> (r: String)
    ensures
        r@ == base58(hash@),
{
    solana_hash::Hash::new_from_array(*hash).to_string()
}

/// The hexadecimal digit.
pub open spec fn hex_digit(d: int) -> char {
    "0123456789abcdef"@[d]
}

/// The bytes in hexadecimal, two digits for each.
pub open spec fn hex(bytes: Seq<u8>) -> Seq<char> {
    Seq::new(
        2 * bytes.len(),
        |i: int|
            if i % 2 == 0 {
                hex_digit(bytes[i / 2] as int / 16)
            } else {
                hex_digit(bytes[i / 2] as int % 16)
            },
    )
}

/// Each byte can be read from its two digits.
pub proof fn law_hex(bytes: Seq<u8>, i: int)
    requires
        0 <= i < bytes.len(),
    ensures
        hex(bytes).len() == 2 * bytes.len(),
        exists|a: int, b: int|
            0 <= a < 16 && 0 <= b < 16 && 16 * a + b == bytes[i] && hex(bytes)[2 * i]
                == #[trigger] "0123456789abcdef"@[a] && hex(bytes)[2 * i + 1]
                == #[trigger] "0123456789abcdef"@[b],
{
    let a = bytes[i] as int / 16;
    let b = bytes[i] as int % 16;
    assert((2 * i) / 2 == i && (2 * i) % 2 == 0 && (2 * i + 1) / 2 == i && (2 * i + 1) % 2 == 1)
        by (nonlinear_arith);
    assert(hex(bytes)[2 * i] == "0123456789abcdef"@[a]);
    assert(hex(bytes)[2 * i + 1] == "0123456789abcdef"@[b]);
}

/// `const_hex::encode`: the bytes in hexadecimal, in lower case.
#[verifier::external_body]
pub(crate) fn hex_text(bytes: &[u8]) -> (r: String)
    ensures
        r@ == hex(bytes@),
{
    const_hex::encode(bytes)
}

/// What `String::from_utf8_lossy` makes of the bytes.
pub uninterp spec fn utf8_lossy(bytes: Seq<u8>) -> Seq<char>;

/// `String::from_utf8_lossy`: the text that the bytes encode. Of bytes that encode none, what cannot be
/// decoded is replaced.
#[verifier::external_body]
pub(crate) fn lossy_text(bytes: &[u8]) -> (r: String)
    ensures
        r@ == utf8_lossy(bytes@),
        vstd::utf8::valid_utf8(bytes@) ==> r@ == vstd::utf8::decode_utf8(bytes@),
{
    String::from_utf8_lossy(bytes).into_owned()
}

/// A text is a number where it holds digits and nothing else, but for one plus sign in front of them, which
/// changes nothing. One more digit makes it ten times as much and that digit.
pub proof fn law_number(text: Seq<char>, d: char)
    ensures
        number(text) is Some <==> {
            ||| text.len() > 0 && forall|i: int| 0 <= i < text.len() ==> '0' <= #[trigger] text[i] <= '9'
            ||| text.len() > 1 && text[0] == '+' && forall|i: int|
                1 <= i < text.len() ==> '0' <= #[trigger] text[i] <= '9'
        },
        text.len() > 0 && text[0] != '+' ==> number(seq!['+'] + text) == number(text),
        number(text) matches Some(v) ==> number(text.push(d)) == if '0' <= d <= '9' {
            Some((10 * v + (d as int - '0' as int)) as nat)
        } else {
            None
        },
{
    let digits = if text.len() > 0 && text[0] == '+' {
        text.skip(1)
    } else {
        text
    };
    lemma_all_digits(digits);
    if text.len() > 0 && text[0] == '+' {
        assert forall|i: int| 1 <= i < text.len() implies #[trigger] text[i] == digits[i - 1] by {}
        assert forall|i: int| 0 <= i < digits.len() implies #[trigger] digits[i] == text[i + 1] by {}
        assert(text.push(d).skip(1) =~= digits.push(d));
    }
    assert(digits.push(d).drop_last() =~= digits);
    assert((seq!['+'] + text).skip(1) =~= text);
}

/// Digits have a value where each of them is one.
proof fn lemma_all_digits(text: Seq<char>)
    ensures
        digits_value(text) is Some <==> forall|i: int|
            0 <= i < text.len() ==> '0' <= #[trigger] text[i] <= '9',
    decreases text.len(),
{
    if text.len() > 0 {
        let before = text.drop_last();
        lemma_all_digits(before);
        assert forall|i: int| 0 <= i < before.len() implies #[trigger] before[i] == text[i] by {}
        if forall|i: int| 0 <= i < before.len() ==> '0' <= #[trigger] before[i] <= '9' {
            assert forall|i: int| 0 <= i < text.len() - 1 implies '0' <= #[trigger] text[i] <= '9' by {
                assert(before[i] == text[i]);
            }
        }
        if forall|i: int| 0 <= i < text.len() ==> '0' <= #[trigger] text[i] <= '9' {
            assert forall|i: int| 0 <= i < before.len() implies '0' <= #[trigger] before[i] <= '9' by {
                assert(before[i] == text[i]);
            }
            assert('0' <= text[text.len() - 1] <= '9');
        }
    }
}

/// A number is read where it fits, and not otherwise.
pub proof fn law_number_fits(text: Seq<char>)
    ensures
        match number(text) {
            None => number_u64(text) is None,
            Some(v) => if v <= u64::MAX {
                number_u64(text) is Some && number_u64(text)->Some_0 == v
            } else {
                number_u64(text) is None
            },
        },
{
}

/// What is trimmed is the space, what ends a line, a page or a column, and the other spaces of Unicode.
pub proof fn law_spaces(c: char)
    ensures
        is_space(c) <==> {
            let n = c as int;
            ||| n == 0x20
            ||| n == 0x09 || n == 0x0a || n == 0x0b || n == 0x0c || n == 0x0d
            ||| n == 0x85 || n == 0xa0 || n == 0x1680
            ||| n == 0x2000 || n == 0x2001 || n == 0x2002 || n == 0x2003 || n == 0x2004 || n == 0x2005
            ||| n == 0x2006 || n == 0x2007 || n == 0x2008 || n == 0x2009 || n == 0x200a
            ||| n == 0x2028 || n == 0x2029 || n == 0x202f || n == 0x205f || n == 0x3000
        },
{
}

} // verus!
