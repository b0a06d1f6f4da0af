use vstd::prelude::*;

verus! {

/// The `i`-th hexadecimal digit of `n`, counting from the most significant
/// of its sixteen digits.
pub open spec fn nibble(n: u64, i: int) -> u64 {
    (n >> ((60 - 4 * i) as u64)) & 15
}

/// The ASCII code of the lowercase hexadecimal digit for `d < 16`.
pub open spec fn hex_char(d: u64) -> u8 {
    if d < 10 {
        (48 + d) as u8
    } else {
        (87 + d) as u8
    }
}

/// `n` written as sixteen lowercase hexadecimal digits, zero-padded
/// (what `format!("{:016x}", n)` writes).
pub open spec fn hex16(n: u64) -> Seq<u8> {
    Seq::new(16, |i: int| hex_char(nibble(n, i)))
}

/// Whether `b` is the ASCII code of a hexadecimal digit, in either case.
pub open spec fn is_hex_digit(b: u8) -> bool {
    (48 <= b <= 57) || (97 <= b <= 102) || (65 <= b <= 70)
}

/// The value of the hexadecimal digit `b`.
pub open spec fn hex_digit_value(b: u8) -> nat {
    if b <= 57 {
        (b - 48) as nat
    } else if b >= 97 {
        (b - 87) as nat
    } else {
        (b - 55) as nat
    }
}

/// The value of a sequence of hexadecimal digits, most significant first.
pub open spec fn hex_value(s: Seq<u8>) -> nat
    decreases s.len(),
{
    if s.len() == 0 {
        0
    } else {
        hex_value(s.drop_last()) * 16 + hex_digit_value(s.last())
    }
}

/// Whether every byte of `s` is a hexadecimal digit.
pub open spec fn all_hex_digits(s: Seq<u8>) -> bool {
    forall|i: int| 0 <= i < s.len() ==> #[trigger] is_hex_digit(s[i])
}

/// The digits that `u32::from_str_radix(_, 16)` reads: an optional leading
/// `+` is dropped.
pub open spec fn radix16_digits(s: Seq<u8>) -> Seq<u8> {
    if s.len() > 0 && s[0] == 43 {
        s.drop_first()
    } else {
        s
    }
}

/// The result of `u32::from_str_radix(s, 16)`, `None` standing for its error:
/// a non-empty run of hexadecimal digits after an optional `+`, whose value
/// fits in 32 bits.
pub open spec fn parse_hex_u32_spec(s: Seq<u8>) -> Option<u32> {
    let d = radix16_digits(s);
    if d.len() > 0 && all_hex_digits(d) && hex_value(d) <= u32::MAX {
        Some(hex_value(d) as u32)
    } else {
        None
    }
}

proof fn lemma_shift_step(n: u64, s: u64)
    requires
        s <= 60,
    ensures
        (n >> ((s + 4) as u64)) * 16 + ((n >> s) & 15) == n >> s,
{
    assert((n >> ((s + 4) as u64)) * 16 + ((n >> s) & 15) == n >> s) by (bit_vector)
        requires
            s <= 60,
    ;
}

proof fn lemma_hex_char_value(d: u64)
    requires
        d < 16,
    ensures
        is_hex_digit(hex_char(d)),
        hex_digit_value(hex_char(d)) == d,
        97 <= hex_char(d) ==> hex_char(d) <= 102,
{
}

proof fn lemma_hex16_prefix(n: u64, k: int)
    requires
        0 <= k <= 16,
    ensures
        hex_value(hex16(n).take(k)) == n >> ((64 - 4 * k) as u64),
    decreases k,
{
    if k == 0 {
        assert(hex16(n).take(0) =~= Seq::<u8>::empty());
        assert(n >> 64u64 == 0) by (bit_vector);
    } else {
        lemma_hex16_prefix(n, k - 1);
        let t = hex16(n).take(k);
        assert(t.drop_last() =~= hex16(n).take(k - 1));
        let s = (64 - 4 * k) as u64;
        assert(nibble(n, k - 1) < 16) by {
            let x = n >> s;
            assert(x & 15 < 16) by (bit_vector);
        }
        lemma_hex_char_value(nibble(n, k - 1));
        lemma_shift_step(n, s);
        assert(((s + 4) as u64) == ((64 - 4 * (k - 1)) as u64));
    }
}

/// Reading back the sixteen digits that `hex16` writes gives the number, and
/// every one of them is a lowercase hexadecimal digit.
pub proof fn law_hex16_round_trip(n: u64)
    ensures
        hex16(n).len() == 16,
        all_hex_digits(hex16(n)),
        forall|i: int| 0 <= i < 16 ==> !(65 <= #[trigger] hex16(n)[i] <= 70),
        hex_value(hex16(n)) == n,
{
    assert forall|i: int| 0 <= i < 16 implies is_hex_digit(#[trigger] hex16(n)[i])
        && !(65 <= hex16(n)[i] <= 70) by {
        let x = n >> ((60 - 4 * i) as u64);
        assert(x & 15 < 16) by (bit_vector);
        lemma_hex_char_value(nibble(n, i));
    }
    lemma_hex16_prefix(n, 16);
    assert(hex16(n).take(16) =~= hex16(n));
    assert(n >> 0u64 == n) by (bit_vector);
}

/// Two numbers with the same sixteen-digit form are equal.
pub proof fn law_hex16_injective(a: u64, b: u64)
    requires
        hex16(a) == hex16(b),
    ensures
        a == b,
{
    law_hex16_round_trip(a);
    law_hex16_round_trip(b);
}

/// Writes `n` as sixteen lowercase, zero-padded hexadecimal digits.
pub fn format_hex16(n: u64) -> (digits: Vec<u8>)
    ensures
        digits@ == hex16(n),
{
    let mut digits: Vec<u8> = Vec::new();
    let mut i: u64 = 0;
    while i < 16
        invariant
            i <= 16,
            digits@.len() == i,
            forall|j: int| 0 <= j < i ==> digits@[j] == hex16(n)[j],
        decreases 16 - i,
    {
        let shift: u64 = 60 - 4 * i;
        let d: u64 = (n >> shift) & 15;
        assert(d < 16) by (bit_vector)
            requires
                d == (n >> shift) & 15,
        ;
        let c: u8 = if d < 10 {
            (48 + d) as u8
        } else {
            (87 + d) as u8
        };
        digits.push(c);
        i = i + 1;
    }
    assert(digits@ =~= hex16(n));
    digits
}

/// The value of the hexadecimal digit `b`, or `None` when `b` is not one.
fn hex_digit(b: u8) -> (v: Option<u32>)
    ensures
        v is Some <==> is_hex_digit(b),
        v matches Some(x) ==> x == hex_digit_value(b) && x < 16,
{
    if 48 <= b && b <= 57 {
        Some((b - 48) as u32)
    } else if 97 <= b && b <= 102 {
        Some((b - 87) as u32)
    } else if 65 <= b && b <= 70 {
        Some((b - 55) as u32)
    } else {
        None
    }
}

/// Parses `text` as `u32::from_str_radix(text, 16)` does; `None` stands for
/// its error.
pub fn parse_hex_u32(text: &[u8]) -> (r: Option<u32>)
    ensures
        r == parse_hex_u32_spec(text@),
{
    let start: usize = if text.len() > 0 && text[0] == 43 {
        1
    } else {
        0
    };
    let ghost d = radix16_digits(text@);
    assert(d =~= text@.subrange(start as int, text@.len() as int));
    if start == text.len() {
        return None;
    }
    let mut acc: u32 = 0;
    let mut overflow = false;
    let mut i: usize = start;
    while i < text.len()
        invariant
            start <= i <= text.len(),
            d == radix16_digits(text@),
            d =~= text@.subrange(start as int, text@.len() as int),
            all_hex_digits(d.take(i - start)),
            overflow ==> hex_value(d.take(i - start)) > u32::MAX,
            !overflow ==> acc == hex_value(d.take(i - start)),
        decreases text.len() - i,
    {
        let k: Ghost<int> = Ghost(i - start);
        assert(d.take(k@ + 1).drop_last() =~= d.take(k@));
        assert(d.take(k@ + 1).last() == text@[i as int]);
        match hex_digit(text[i]) {
            None => {
                assert(!all_hex_digits(d)) by {
                    assert(d[k@] == text@[i as int]);
                    assert(!is_hex_digit(d[k@]));
                }
                return None;
            },
            Some(v) => {
                assert(all_hex_digits(d.take(k@ + 1))) by {
                    assert forall|j: int| 0 <= j < k@ + 1 implies #[trigger] is_hex_digit(
                        d.take(k@ + 1)[j],
                    ) by {
                        if j < k@ {
                            assert(d.take(k@ + 1)[j] == d.take(k@)[j]);
                        }
                    }
                }
                if !overflow {
                    if acc > 268435455 {
                        overflow = true;
                    } else {
                        acc = acc * 16 + v;
                    }
                }
            },
        }
        i = i + 1;
    }
    assert(d.take(d.len() as int) =~= d);
    if overflow {
        None
    } else {
        Some(acc)
    }
}


/// Parsing the sixteen-digit form of a 32-bit number gives the number back:
/// leading zeros are read, never refused.
pub proof fn law_parse_reads_hex16(m: u32)
    ensures
        parse_hex_u32_spec(hex16(m as u64)) == Some(m),
{
    law_hex16_round_trip(m as u64);
    let s = hex16(m as u64);
    assert(is_hex_digit(s[0]));
    assert(radix16_digits(s) == s);
}


/// The ASCII characters `0123456789abcdef`.
pub open spec fn lowercase_digits() -> Seq<u8> {
    seq![48u8, 49u8, 50u8, 51u8, 52u8, 53u8, 54u8, 55u8, 56u8, 57u8, 97u8, 98u8, 99u8, 100u8, 101u8, 102u8]
}

/// The ASCII characters `0123456789ABCDEF`.
pub open spec fn uppercase_digits() -> Seq<u8> {
    seq![48u8, 49u8, 50u8, 51u8, 52u8, 53u8, 54u8, 55u8, 56u8, 57u8, 65u8, 66u8, 67u8, 68u8, 69u8, 70u8]
}

/// The hexadecimal digits are the sixteen ASCII characters `0`-`9`, `a`-`f`
/// and, for reading only, `A`-`F`, worth 0 to 15 in that order; digits are
/// written in lowercase, and nothing else is a digit.
pub proof fn law_hex_digit_table()
    ensures
        forall|d: u64| d < 16 ==> #[trigger] hex_char(d) == lowercase_digits()[d as int],
        forall|d: int|
            0 <= d < 16 ==> is_hex_digit(#[trigger] lowercase_digits()[d]) && hex_digit_value(
                lowercase_digits()[d],
            ) == d,
        forall|d: int|
            0 <= d < 16 ==> is_hex_digit(#[trigger] uppercase_digits()[d]) && hex_digit_value(
                uppercase_digits()[d],
            ) == d,
        forall|b: u8| #[trigger] is_hex_digit(b) ==> exists|d: int|
            0 <= d < 16 && (b == lowercase_digits()[d] || b == uppercase_digits()[d]),
{
    assert forall|d: int| 0 <= d < 16 implies lowercase_digits()[d] == (if d < 10 { 48 + d } else { 87 + d })
        && uppercase_digits()[d] == (if d < 10 { 48 + d } else { 55 + d }) by {
        if d == 0 {} else if d == 1 {} else if d == 2 {} else if d == 3 {} else if d == 4 {} else if d == 5 {}
        else if d == 6 {} else if d == 7 {} else if d == 8 {} else if d == 9 {} else if d == 10 {} else if d == 11 {}
        else if d == 12 {} else if d == 13 {} else if d == 14 {} else {}
    }
    assert forall|b: u8| #[trigger] is_hex_digit(b) implies exists|d: int|
        0 <= d < 16 && (b == lowercase_digits()[d] || b == uppercase_digits()[d]) by {
        let d = hex_digit_value(b) as int;
        assert(0 <= d < 16);
        assert(b == lowercase_digits()[d] || b == uppercase_digits()[d]);
    }
}

proof fn lemma_nibble_shift(n: u64, i: int)
    requires
        0 <= i < 15,
    ensures
        nibble(n >> 4u64, i + 1) == nibble(n, i),
{
    let s = (56 - 4 * i) as u64;
    assert(((n >> 4u64) >> s) & 15 == (n >> ((s + 4) as u64)) & 15) by (bit_vector)
        requires
            s <= 56,
    ;
    assert(((60 - 4 * (i + 1)) as u64) == s);
    assert(((60 - 4 * i) as u64) == ((s + 4) as u64));
}

/// Writing `n` is writing `n / 16` with its leading digit dropped and the
/// digit of `n % 16` appended: the digits are base-16 positions, most
/// significant first.
pub proof fn law_hex16_last_digit(n: u64)
    ensures
        hex16(n) == hex16(n / 16).drop_first().push(hex_char(n % 16)),
        hex16(0) == Seq::new(16, |i: int| 48u8),
{
    assert(n >> 4u64 == n / 16) by (bit_vector);
    assert((n >> 0u64) & 15 == n % 16) by (bit_vector);
    assert((60 - 4 * 15int) as u64 == 0u64);
    let rhs = hex16(n / 16).drop_first().push(hex_char(n % 16));
    assert forall|i: int| 0 <= i < 16 implies hex16(n)[i] == rhs[i] by {
        if i < 15 {
            lemma_nibble_shift(n, i);
        }
    }
    assert(hex16(n) =~= rhs);
    assert forall|i: int| 0 <= i < 16 implies nibble(0, i) == 0 by {
        let s = (60 - 4 * i) as u64;
        assert((0u64 >> s) & 15 == 0) by (bit_vector);
    }
    assert(hex16(0) =~= Seq::new(16, |i: int| 48u8));
}

/// A run of hexadecimal digits (no sign) is read as its value when that
/// fits in 32 bits, and refused when it does not.
pub proof fn law_parse_digits(d: Seq<u8>)
    requires
        d.len() > 0,
        all_hex_digits(d),
    ensures
        hex_value(d) <= u32::MAX ==> parse_hex_u32_spec(d) == Some(hex_value(d) as u32),
        hex_value(d) > u32::MAX ==> parse_hex_u32_spec(d) is None,
{
    assert(is_hex_digit(d[0]));
}

/// A leading `+` is skipped once: `+` followed by digits reads as the
/// digits; a second sign, a lone `+` or an empty text is refused.
pub proof fn law_parse_plus(d: Seq<u8>)
    ensures
        d.len() > 0 && d[0] != 43 ==> parse_hex_u32_spec(seq![43u8] + d) == parse_hex_u32_spec(d),
        d.len() > 0 && d[0] == 43 ==> parse_hex_u32_spec(seq![43u8] + d) is None,
        parse_hex_u32_spec(seq![43u8]) is None,
        parse_hex_u32_spec(Seq::<u8>::empty()) is None,
{
    let s = seq![43u8] + d;
    assert(s.drop_first() =~= d);
    if d.len() > 0 && d[0] == 43 {
        assert(!is_hex_digit(d[0]));
    }
    if d.len() > 0 && d[0] != 43 {
        if parse_hex_u32_spec(d) is Some {
            assert(is_hex_digit(d[0]));
        }
    }
    assert(seq![43u8].drop_first() =~= Seq::<u8>::empty());
}

/// A text with a byte that is neither a digit nor the one leading `+` is
/// refused.
pub proof fn law_parse_rejects(s: Seq<u8>, i: int)
    requires
        0 <= i < s.len(),
        !is_hex_digit(s[i]),
        !(i == 0 && s[0] == 43),
    ensures
        parse_hex_u32_spec(s) is None,
{
    let d = radix16_digits(s);
    if s.len() > 0 && s[0] == 43 {
        assert(d[i - 1] == s[i]);
    } else {
        assert(d[i] == s[i]);
    }
}

} // verus!
