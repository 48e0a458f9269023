//! Decimal and hexadecimal numerals, and white space.

use vstd::prelude::*;

verus! {

/// The hexadecimal digit of value `d`, in upper or lower case.
pub open spec fn digit_char(d: int, upper: bool) -> char {
    if d < 10 {
        (('0' as u8) + d) as char
    } else if upper {
        (('A' as u8) + d - 10) as char
    } else {
        (('a' as u8) + d - 10) as char
    }
}

/// `n` in decimal, without leading zeros.
pub open spec fn decimal(n: nat) -> Seq<char>
    decreases n,
{
    if n < 10 {
        seq![digit_char(n as int, false)]
    } else {
        decimal(n / 10).push(digit_char((n % 10) as int, false))
    }
}

/// `n` in decimal, with a sign if it is negative.
pub open spec fn signed_decimal(n: int) -> Seq<char> {
    if n < 0 {
        "-"@ + decimal((-n) as nat)
    } else {
        decimal(n as nat)
    }
}

/// `n` as two hexadecimal digits.
pub open spec fn hex2(n: u8, upper: bool) -> Seq<char> {
    seq![digit_char((n / 16) as int, upper), digit_char((n % 16) as int, upper)]
}

/// `n` as four hexadecimal digits.
pub open spec fn hex4(n: u16, upper: bool) -> Seq<char> {
    hex2((n / 256) as u8, upper) + hex2((n % 256) as u8, upper)
}

/// The numeral of one hexadecimal digit.
pub fn digit_text(d: u8, upper: bool) -> (r: &'static str)
    requires
        d < 16,
    ensures
        r@ == seq![digit_char(d as int, upper)],
{
    proof {
        reveal_strlit("0");
        reveal_strlit("1");
        reveal_strlit("2");
        reveal_strlit("3");
        reveal_strlit("4");
        reveal_strlit("5");
        reveal_strlit("6");
        reveal_strlit("7");
        reveal_strlit("8");
        reveal_strlit("9");
        reveal_strlit("a");
        reveal_strlit("b");
        reveal_strlit("c");
        reveal_strlit("d");
        reveal_strlit("e");
        reveal_strlit("f");
        reveal_strlit("A");
        reveal_strlit("B");
        reveal_strlit("C");
        reveal_strlit("D");
        reveal_strlit("E");
        reveal_strlit("F");
    }
    let r = match (d, upper) {
        (0, _) => "0",
        (1, _) => "1",
        (2, _) => "2",
        (3, _) => "3",
        (4, _) => "4",
        (5, _) => "5",
        (6, _) => "6",
        (7, _) => "7",
        (8, _) => "8",
        (9, _) => "9",
        (10, false) => "a",
        (11, false) => "b",
        (12, false) => "c",
        (13, false) => "d",
        (14, false) => "e",
        (_, false) => "f",
        (10, true) => "A",
        (11, true) => "B",
        (12, true) => "C",
        (13, true) => "D",
        (14, true) => "E",
        (_, true) => "F",
    };
    assert(r@ =~= seq![digit_char(d as int, upper)]);
    r
}

/// Appends `n` in decimal.
pub fn push_decimal(out: &mut String, n: u64)
    ensures
        final(out)@ == old(out)@ + decimal(n as nat),
    decreases n,
{
    if n >= 10 {
        push_decimal(out, n / 10);
    }
    out.append(digit_text((n % 10) as u8, false));
    assert(out@ =~= old(out)@ + decimal(n as nat));
}

/// Appends `n` in decimal, with a sign if it is negative.
pub fn push_signed(out: &mut String, n: i32)
    ensures
        final(out)@ == old(out)@ + signed_decimal(n as int),
{
    let wide: i64 = n as i64;
    if wide < 0 {
        out.append("-");
        push_decimal(out, (-wide) as u64);
        assert(out@ =~= old(out)@ + signed_decimal(n as int));
    } else {
        push_decimal(out, wide as u64);
    }
}

/// Appends `n` as two hexadecimal digits.
pub fn push_hex2(out: &mut String, n: u8, upper: bool)
    ensures
        final(out)@ == old(out)@ + hex2(n, upper),
{
    out.append(digit_text(n / 16, upper));
    out.append(digit_text(n % 16, upper));
    assert(out@ =~= old(out)@ + hex2(n, upper));
}

/// Appends `n` as four hexadecimal digits.
pub fn push_hex4(out: &mut String, n: u16, upper: bool)
    ensures
        final(out)@ == old(out)@ + hex4(n, upper),
{
    push_hex2(out, (n / 256) as u8, upper);
    push_hex2(out, (n % 256) as u8, upper);
    assert(out@ =~= old(out)@ + hex4(n, upper));
}

/// White space in the sense of Unicode.
pub open spec fn is_space(c: char) -> bool {
    let n = c as u32;
    ||| 0x09 <= n <= 0x0D
    ||| n == 0x20
    ||| n == 0x85
    ||| n == 0xA0
    ||| n == 0x1680
    ||| 0x2000 <= n <= 0x200A
    ||| n == 0x2028
    ||| n == 0x2029
    ||| n == 0x202F
    ||| n == 0x205F
    ||| n == 0x3000
}

/// A text without the white space around it.
pub open spec fn trimmed(s: Seq<char>) -> Seq<char>
    decreases s.len(),
{
    if s.len() == 0 {
        s
    } else if is_space(s.first()) {
        trimmed(s.skip(1))
    } else if is_space(s.last()) {
        trimmed(s.drop_last())
    } else {
        s
    }
}

fn space(c: char) -> (r: bool)
    ensures
        r == is_space(c),
{
    let n: u32 = c as u32;
    0x09 <= n && n <= 0x0D || n == 0x20 || n == 0x85 || n == 0xA0 || n == 0x1680 || 0x2000 <= n && n
        <= 0x200A || n == 0x2028 || n == 0x2029 || n == 0x202F || n == 0x205F || n == 0x3000
}

/// A text without the white space around it.
pub fn trim(text: &str) -> (r: &str)
    ensures
        r@ == trimmed(text@),
{
    let len: usize = text.unicode_len();
    let mut start: usize = 0;
    assert(text@.subrange(0, len as int) =~= text@);
    while start < len && space(text.get_char(start))
        invariant
            start <= len == text@.len(),
            trimmed(text@.subrange(start as int, len as int)) == trimmed(text@),
        decreases len - start,
    {
        assert(text@.subrange(start as int, len as int).skip(1) =~= text@.subrange(
            start + 1,
            len as int,
        ));
        start += 1;
    }
    let mut end: usize = len;
    while end > start && space(text.get_char(end - 1))
        invariant
            start <= end <= len == text@.len(),
            start < end ==> !is_space(text@[start as int]),
            trimmed(text@.subrange(start as int, end as int)) == trimmed(text@),
        decreases end,
    {
        assert(text@.subrange(start as int, end as int).drop_last() =~= text@.subrange(
            start as int,
            end - 1,
        ));
        end -= 1;
    }
    text.substring_char(start, end)
}

/// The digits are those of ASCII: ten figures, then letters.
pub proof fn law_digits_are_ascii(d: int)
    requires
        0 <= d < 16,
    ensures
        d < 10 ==> digit_char(d, true) as u32 == 48 + d && digit_char(d, false) as u32 == 48 + d,
        d >= 10 ==> digit_char(d, true) as u32 == 65 + d - 10,
        d >= 10 ==> digit_char(d, false) as u32 == 97 + d - 10,
{
}

/// A decimal numeral is built digit by digit: to write ten times a number plus
/// a digit, write the number, unless it is zero, and then the digit.
pub proof fn law_decimal_is_built_digit_by_digit(n: nat, d: int)
    requires
        0 <= d < 10,
    ensures
        decimal((10 * n + d) as nat) == (if n == 0 {
            Seq::empty()
        } else {
            decimal(n)
        }).push(digit_char(d, false)),
{
    let m = (10 * n + d) as nat;
    assert(m / 10 == n && m % 10 == d);
    assert(Seq::<char>::empty().push(digit_char(d, false)) =~= seq![digit_char(d, false)]);
}

/// A negative number is written with a minus sign before its magnitude.
pub proof fn law_sign(n: int)
    ensures
        n >= 0 ==> signed_decimal(n) == decimal(n as nat),
        n < 0 ==> signed_decimal(n).len() > 0 && signed_decimal(n)[0] == '-' && signed_decimal(
            n,
        ).skip(1) == decimal((-n) as nat),
{
    if n < 0 {
        reveal_strlit("-");
        assert(signed_decimal(n).skip(1) =~= decimal((-n) as nat));
    }
}

/// The two hexadecimal digits of a byte, and the four of a 16-bit number, are
/// those of its halves, the upper one first.
pub proof fn law_hex_digits_spell(a: int, b: int, c: int, d: int, byte: u8, word: u16, upper: bool)
    requires
        0 <= a < 16,
        0 <= b < 16,
        0 <= c < 16,
        0 <= d < 16,
        byte == 16 * a + b,
        word == 4096 * a + 256 * b + 16 * c + d,
    ensures
        hex2(byte, upper) == seq![digit_char(a, upper), digit_char(b, upper)],
        hex4(word, upper) == seq![
            digit_char(a, upper),
            digit_char(b, upper),
            digit_char(c, upper),
            digit_char(d, upper),
        ],
{
    assert(byte / 16 == a && byte % 16 == b);
    assert(word / 256 == 16 * a + b && word % 256 == 16 * c + d);
    let high = (word / 256) as u8;
    let low = (word % 256) as u8;
    assert(high / 16 == a && high % 16 == b && low / 16 == c && low % 16 == d);
    assert(hex4(word, upper) =~= seq![
        digit_char(a, upper),
        digit_char(b, upper),
        digit_char(c, upper),
        digit_char(d, upper),
    ]);
}

/// The white space of Unicode.
pub proof fn law_white_space(c: char)
    ensures
        is_space(c) <==> {
            let n = c as u32;
            ||| n == 9 || n == 10 || n == 11 || n == 12 || n == 13 || n == 32
            ||| n == 133 || n == 160 || n == 5760 || 8192 <= n <= 8202
            ||| n == 8232 || n == 8233 || n == 8239 || n == 8287 || n == 12288
        },
{
}

/// Around a text that neither begins nor ends with white space, any white space
/// is taken away, and nothing of the text; white space alone leaves nothing.
pub proof fn law_trimming_takes_the_white_space_away(
    before: Seq<char>,
    body: Seq<char>,
    after: Seq<char>,
)
    requires
        forall|i: int| 0 <= i < before.len() ==> is_space(#[trigger] before[i]),
        forall|i: int| 0 <= i < after.len() ==> is_space(#[trigger] after[i]),
        body.len() > 0 ==> !is_space(body.first()) && !is_space(body.last()),
    ensures
        trimmed(before + body + after) == body,
    decreases before.len() + after.len(),
{
    let s = before + body + after;
    if before.len() > 0 {
        let rest = before.skip(1);
        assert(is_space(before[0]) && s.first() == before[0]);
        assert forall|i: int| 0 <= i < rest.len() implies is_space(#[trigger] rest[i]) by {
            assert(rest[i] == before[i + 1]);
        }
        law_trimming_takes_the_white_space_away(rest, body, after);
        assert(s.skip(1) =~= rest + body + after);
    } else if after.len() > 0 {
        let rest = after.drop_last();
        assert forall|i: int| 0 <= i < rest.len() implies is_space(#[trigger] rest[i]) by {
            assert(rest[i] == after[i]);
        }
        law_trimming_takes_the_white_space_away(before, body, rest);
        assert(is_space(after[after.len() - 1]));
        assert(s.last() == after[after.len() - 1]);
        assert(s.drop_last() =~= before + body + rest);
        if body.len() > 0 {
            assert(s.first() == body.first());
        } else {
            assert(is_space(after[0]) && s.first() == after[0]);
            let tail = after.skip(1);
            assert forall|i: int| 0 <= i < tail.len() implies is_space(#[trigger] tail[i]) by {
                assert(tail[i] == after[i + 1]);
            }
            law_trimming_takes_the_white_space_away(before, body, tail);
            assert(s.skip(1) =~= before + body + tail);
        }
    } else {
        assert(s =~= body);
        if body.len() > 0 {
            assert(s.first() == body.first() && s.last() == body.last());
        }
    }
}

} // verus!
