//! Hexadecimal parsing and rendering of the numeric record fields.

use vstd::arithmetic::div_mod::lemma_fundamental_div_mod;
use vstd::prelude::*;

verus! {

/// Value of one hexadecimal digit character, or -1 when the character is not
/// a hexadecimal digit.
pub open spec fn hex_digit_val(c: char) -> int {
    if '0' <= c && c <= '9' {
        c as int - '0' as int
    } else if 'a' <= c && c <= 'f' {
        c as int - 'a' as int + 10
    } else if 'A' <= c && c <= 'F' {
        c as int - 'A' as int + 10
    } else {
        -1
    }
}

/// A non-empty sequence consisting solely of hexadecimal digit characters.
pub open spec fn is_hex_seq(s: Seq<char>) -> bool {
    s.len() > 0 && forall|i: int| 0 <= i < s.len() ==> hex_digit_val(s[i]) >= 0
}

/// Mathematical value of a sequence of hexadecimal digit characters.
pub open spec fn hex_val(s: Seq<char>) -> int
    decreases s.len(),
{
    if s.len() == 0 {
        0
    } else {
        16 * hex_val(s.drop_last()) + hex_digit_val(s.last())
    }
}

pub proof fn lemma_hex_val_nonneg(s: Seq<char>)
    requires
        forall|i: int| 0 <= i < s.len() ==> hex_digit_val(s[i]) >= 0,
    ensures
        hex_val(s) >= 0,
    decreases s.len(),
{
    if s.len() > 0 {
        lemma_hex_val_nonneg(s.drop_last());
    }
}

/// The value of a prefix of a digit string never exceeds the value of the
/// whole string.
pub proof fn lemma_hex_val_prefix_le(s: Seq<char>, n: int)
    requires
        0 <= n <= s.len(),
        forall|i: int| 0 <= i < s.len() ==> hex_digit_val(s[i]) >= 0,
    ensures
        hex_val(s.subrange(0, n)) <= hex_val(s),
    decreases s.len() - n,
{
    if n < s.len() {
        lemma_hex_val_nonneg(s.subrange(0, n));
        assert(s.subrange(0, n + 1).drop_last() =~= s.subrange(0, n));
        assert(s.subrange(0, n + 1).last() == s[n]);
        lemma_hex_val_prefix_le(s, n + 1);
    } else {
        assert(s.subrange(0, n) =~= s);
    }
}

/// Decode one hexadecimal digit character.
fn hex_digit(c: char) -> (r: Option<u32>)
    ensures
        r is Some <==> hex_digit_val(c) >= 0,
        r matches Some(d) ==> d == hex_digit_val(c) && d < 16,
{
    if '0' <= c && c <= '9' {
        Some(c as u32 - '0' as u32)
    } else if 'a' <= c && c <= 'f' {
        Some(c as u32 - 'a' as u32 + 10)
    } else if 'A' <= c && c <= 'F' {
        Some(c as u32 - 'A' as u32 + 10)
    } else {
        None
    }
}

/// What parsing a field as a bounded non-negative hexadecimal number yields:
/// the value when the field is a digit string whose value is within the
/// bound, nothing otherwise.
pub open spec fn hex_to_bounded(s: Seq<char>, max: int) -> Option<int> {
    if is_hex_seq(s) && hex_val(s) <= max {
        Some(hex_val(s))
    } else {
        None
    }
}

fn parse_hex_bounded(s: &str, max: u64) -> (r: Option<u64>)
    requires
        max >= 15,
    ensures
        r is Some <==> hex_to_bounded(s@, max as int) is Some,
        r matches Some(v) ==> v == hex_val(s@),
{
    let n = s.unicode_len();
    if n == 0 {
        return None;
    }
    let mut acc: u64 = 0;
    let mut i: usize = 0;
    while i < n
        invariant
            max >= 15,
            0 < n == s@.len(),
            0 <= i <= n,
            forall|j: int| 0 <= j < i ==> hex_digit_val(s@[j]) >= 0,
            acc == hex_val(s@.subrange(0, i as int)),
            acc <= max,
        decreases n - i,
    {
        let c = s.get_char(i);
        match hex_digit(c) {
            None => {
                return None;
            },
            Some(d) => {
                let d64: u64 = d as u64;
                proof {
                    assert(s@.subrange(0, i + 1).drop_last() =~= s@.subrange(0, i as int));
                    assert(s@.subrange(0, i + 1).last() == s@[i as int]);
                    lemma_fundamental_div_mod((max - d64) as int, 16);
                }
                if acc > (max - d64) / 16 {
                    proof {
                        if is_hex_seq(s@) {
                            lemma_hex_val_prefix_le(s@, i + 1);
                        }
                    }
                    return None;
                }
                acc = 16 * acc + d64;
            },
        }
        i = i + 1;
    }
    proof {
        assert(s@.subrange(0, n as int) =~= s@);
    }
    Some(acc)
}

/// Parse a string of hexadecimal digits into a non-negative `i32`, as the
/// slot-index and statistic fields of a record are encoded.
pub fn parse_hex_i32(s: &str) -> (r: Option<i32>)
    ensures
        r is Some <==> hex_to_bounded(s@, 0x7fffffff) is Some,
        r matches Some(v) ==> v == hex_val(s@),
{
    match parse_hex_bounded(s, 0x7fffffff) {
        Some(v) => Some(v as i32),
        None => None,
    }
}

/// Parse a string of hexadecimal digits into a non-negative `i64`, as a
/// target memory address is written.
pub fn parse_hex_i64(s: &str) -> (r: Option<i64>)
    ensures
        r is Some <==> hex_to_bounded(s@, 0x7fffffffffffffff) is Some,
        r matches Some(v) ==> v == hex_val(s@),
{
    match parse_hex_bounded(s, 0x7fffffffffffffff) {
        Some(v) => Some(v as i64),
        None => None,
    }
}

/// Character for one hexadecimal digit value, lower case.
pub open spec fn hex_digit_char(d: int) -> char {
    if d == 0 {
        '0'
    } else if d == 1 {
        '1'
    } else if d == 2 {
        '2'
    } else if d == 3 {
        '3'
    } else if d == 4 {
        '4'
    } else if d == 5 {
        '5'
    } else if d == 6 {
        '6'
    } else if d == 7 {
        '7'
    } else if d == 8 {
        '8'
    } else if d == 9 {
        '9'
    } else if d == 10 {
        'a'
    } else if d == 11 {
        'b'
    } else if d == 12 {
        'c'
    } else if d == 13 {
        'd'
    } else if d == 14 {
        'e'
    } else {
        'f'
    }
}

/// Hexadecimal rendering of a non-negative value, most significant digit
/// first, no leading zeros except for the value zero itself.
pub open spec fn hex_seq_of(n: int) -> Seq<char>
    decreases n,
{
    if n <= 15 {
        seq![hex_digit_char(n)]
    } else {
        hex_seq_of(n / 16).push(hex_digit_char(n % 16))
    }
}

/// The digit characters carry their own value and none of them is the
/// field delimiter.
pub proof fn lemma_digit_char_val(d: int)
    requires
        0 <= d < 16,
    ensures
        hex_digit_val(hex_digit_char(d)) == d,
        hex_digit_char(d) != '|',
{
    assert(hex_digit_val('0') == 0);
    assert(hex_digit_val('1') == 1);
    assert(hex_digit_val('2') == 2);
    assert(hex_digit_val('3') == 3);
    assert(hex_digit_val('4') == 4);
    assert(hex_digit_val('5') == 5);
    assert(hex_digit_val('6') == 6);
    assert(hex_digit_val('7') == 7);
    assert(hex_digit_val('8') == 8);
    assert(hex_digit_val('9') == 9);
    assert(hex_digit_val('a') == 10);
    assert(hex_digit_val('b') == 11);
    assert(hex_digit_val('c') == 12);
    assert(hex_digit_val('d') == 13);
    assert(hex_digit_val('e') == 14);
    assert(hex_digit_val('f') == 15);
}

/// Every character of a hexadecimal rendering is a digit, and none is the
/// field delimiter.
pub proof fn lemma_hex_seq_digits(n: int)
    requires
        n >= 0,
    ensures
        forall|i: int|
            0 <= i < hex_seq_of(n).len() ==> hex_digit_val(#[trigger] hex_seq_of(n)[i]) >= 0
                && hex_seq_of(n)[i] != '|',
    decreases n,
{
    if n <= 15 {
        lemma_digit_char_val(n);
        assert(hex_seq_of(n)[0] == hex_digit_char(n));
    } else {
        lemma_hex_seq_digits(n / 16);
        lemma_digit_char_val(n % 16);
        assert forall|i: int| 0 <= i < hex_seq_of(n).len() implies hex_digit_val(
            #[trigger] hex_seq_of(n)[i],
        ) >= 0 && hex_seq_of(n)[i] != '|' by {
            if i < hex_seq_of(n / 16).len() {
                assert(hex_seq_of(n)[i] == hex_seq_of(n / 16)[i]);
            } else {
                assert(hex_seq_of(n)[i] == hex_digit_char(n % 16));
            }
        }
    }
}

/// Rendering then parsing restores the value.
pub proof fn lemma_hex_round_trip(n: int)
    requires
        n >= 0,
    ensures
        is_hex_seq(hex_seq_of(n)),
        hex_val(hex_seq_of(n)) == n,
    decreases n,
{
    lemma_hex_seq_digits(n);
    if n <= 15 {
        lemma_digit_char_val(n);
        assert(hex_seq_of(n).drop_last() =~= Seq::<char>::empty());
        assert(hex_seq_of(n).last() == hex_digit_char(n));
        assert(hex_val(Seq::<char>::empty()) == 0);
        assert(hex_val(hex_seq_of(n)) == 16 * 0 + n);
    } else {
        lemma_hex_round_trip(n / 16);
        lemma_digit_char_val(n % 16);
        assert(hex_seq_of(n).drop_last() =~= hex_seq_of(n / 16));
        assert(hex_seq_of(n).last() == hex_digit_char(n % 16));
        assert(hex_val(hex_seq_of(n)) == 16 * (n / 16) + n % 16);
        lemma_fundamental_div_mod(n, 16);
    }
}

fn hex_digit_str(d: u32) -> (r: &'static str)
    requires
        d < 16,
    ensures
        r@ =~= seq![hex_digit_char(d as int)],
{
    proof {
        reveal_strlit("0");
        reveal_strlit("1");
        reveal_strlit("2");
        reveal_strlit("3");
        reveal_strlit("4");
        reveal_strlit("5");
        reveal_strlit("6");
        reveal_strlit("7");
        reveal_strlit("8");
        reveal_strlit("9");
        reveal_strlit("a");
        reveal_strlit("b");
        reveal_strlit("c");
        reveal_strlit("d");
        reveal_strlit("e");
        reveal_strlit("f");
    }
    match d {
        0 => "0",
        1 => "1",
        2 => "2",
        3 => "3",
        4 => "4",
        5 => "5",
        6 => "6",
        7 => "7",
        8 => "8",
        9 => "9",
        10 => "a",
        11 => "b",
        12 => "c",
        13 => "d",
        14 => "e",
        _ => "f",
    }
}

/// Render a non-negative value as lower-case hexadecimal digits.
pub fn to_hex(n: i32) -> (r: String)
    requires
        n >= 0,
    ensures
        r@ == hex_seq_of(n as int),
    decreases n,
{
    if n <= 15 {
        let s = hex_digit_str(n as u32).to_owned();
        s
    } else {
        let mut s = to_hex(n / 16);
        s.append(hex_digit_str((n % 16) as u32));
        proof {
            assert(s@ =~= hex_seq_of(n / 16).push(hex_digit_char(n as int % 16)));
        }
        s
    }
}

} // verus!
