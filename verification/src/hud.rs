//! The texts of the in-game HUD: the Dealer Hands messages (with Roman
//! Hand numbers) and The King's summoning warnings. Drawing them is the
//! application's part.

use vstd::prelude::*;
use vstd::string::StringExecFns;

use crate::hand::HandHudMessage;

verus! {

/// Value of the `k`-th entry of the Roman numeral table (largest first).
pub open spec fn roman_value(k: int) -> nat {
    if k == 0 {
        1000
    } else if k == 1 {
        900
    } else if k == 2 {
        500
    } else if k == 3 {
        400
    } else if k == 4 {
        100
    } else if k == 5 {
        90
    } else if k == 6 {
        50
    } else if k == 7 {
        40
    } else if k == 8 {
        10
    } else if k == 9 {
        9
    } else if k == 10 {
        5
    } else if k == 11 {
        4
    } else {
        1
    }
}

/// Symbol of the `k`-th entry of the Roman numeral table.
pub open spec fn roman_symbol(k: int) -> Seq<char> {
    if k == 0 {
        seq!['M']
    } else if k == 1 {
        seq!['C', 'M']
    } else if k == 2 {
        seq!['D']
    } else if k == 3 {
        seq!['C', 'D']
    } else if k == 4 {
        seq!['C']
    } else if k == 5 {
        seq!['X', 'C']
    } else if k == 6 {
        seq!['L']
    } else if k == 7 {
        seq!['X', 'L']
    } else if k == 8 {
        seq!['X']
    } else if k == 9 {
        seq!['I', 'X']
    } else if k == 10 {
        seq!['V']
    } else if k == 11 {
        seq!['I', 'V']
    } else {
        seq!['I']
    }
}

/// Standard subtractive Roman notation of `value`, using the table from
/// entry `k` on: as many of the largest symbol as fit, then the next.
pub open spec fn roman_from(value: nat, k: nat) -> Seq<char>
    decreases 13 - k, value,
{
    if k >= 13 {
        Seq::empty()
    } else if value >= roman_value(k as int) {
        roman_symbol(k as int) + roman_from((value - roman_value(k as int)) as nat, k)
    } else {
        roman_from(value, k + 1)
    }
}

/// The Roman numeral of `value` (empty for zero).
pub open spec fn spec_roman(value: nat) -> Seq<char> {
    roman_from(value, 0)
}

/// The worth of a Roman letter (zero for any other character).
pub open spec fn letter_value(c: char) -> int {
    if c == 'I' {
        1
    } else if c == 'V' {
        5
    } else if c == 'X' {
        10
    } else if c == 'L' {
        50
    } else if c == 'C' {
        100
    } else if c == 'D' {
        500
    } else if c == 'M' {
        1000
    } else {
        0
    }
}

/// The number a Roman numeral stands for, read left to right: a letter
/// followed by a letter worth more is subtracted from it (the pair
/// counts as their difference); any other letter is added.
pub open spec fn roman_read(s: Seq<char>) -> int
    decreases s.len(),
{
    if s.len() == 0 {
        0
    } else if s.len() >= 2 && letter_value(s[0]) < letter_value(s[1]) {
        letter_value(s[1]) - letter_value(s[0]) + roman_read(s.skip(2))
    } else {
        letter_value(s[0]) + roman_read(s.skip(1))
    }
}

/// The worth of the largest first letter of the table entries from `k`
/// on.
spec fn head_bound(k: int) -> int {
    if k <= 0 {
        1000
    } else if k <= 2 {
        500
    } else if k <= 4 {
        100
    } else if k <= 6 {
        50
    } else if k <= 8 {
        10
    } else if k <= 10 {
        5
    } else {
        1
    }
}

/// The first letter of what the table writes from entry `k` on is worth
/// no more than `head_bound(k)`.
proof fn lemma_roman_head(value: nat, k: nat)
    requires
        k <= 13,
    ensures
        roman_from(value, k).len() > 0 ==> letter_value(roman_from(value, k)[0]) <= head_bound(k as int),
    decreases 13 - k,
{
    if k < 13 && value < roman_value(k as int) {
        lemma_roman_head(value, k + 1);
    }
}

/// The numeral written from entry `k` on reads back as the value it was
/// written for.
proof fn lemma_roman_from_reads_back(value: nat, k: nat)
    requires
        k <= 12,
    ensures
        roman_read(roman_from(value, k)) == value,
    decreases 13 - k, value,
{
    if value >= roman_value(k as int) {
        let rest_value = (value - roman_value(k as int)) as nat;
        let rest = roman_from(rest_value, k);
        let sym = roman_symbol(k as int);
        let all = sym + rest;
        lemma_roman_from_reads_back(rest_value, k);
        lemma_roman_head(rest_value, k);
        if sym.len() == 1 {
            assert(all.skip(1) =~= rest);
            assert(all[0] == sym[0]);
            if rest.len() > 0 {
                assert(all[1] == rest[0]);
            }
        } else {
            assert(all.skip(2) =~= rest);
            assert(all[0] == sym[0]);
            assert(all[1] == sym[1]);
        }
    } else if k < 12 {
        lemma_roman_from_reads_back(value, k + 1);
    } else {
        assert(value == 0);
        assert(roman_from(0, 13) =~= Seq::<char>::empty());
    }
}

/// `n` times the letter `c`.
pub open spec fn letters(c: char, n: nat) -> Seq<char> {
    Seq::new(n, |i: int| c)
}

/// The standard Roman form of one decimal digit `d`, with `one`, `five`
/// and `ten` the letters of one, five and ten units of its place.
pub open spec fn digit_roman(d: nat, one: char, five: char, ten: char) -> Seq<char> {
    if d == 0 {
        seq![]
    } else if d == 1 {
        seq![one]
    } else if d == 2 {
        seq![one, one]
    } else if d == 3 {
        seq![one, one, one]
    } else if d == 4 {
        seq![one, five]
    } else if d == 5 {
        seq![five]
    } else if d == 6 {
        seq![five, one]
    } else if d == 7 {
        seq![five, one, one]
    } else if d == 8 {
        seq![five, one, one, one]
    } else {
        seq![one, ten]
    }
}

/// A single-letter entry `k` worth `val` is written `q` times before the
/// rest `r < val` goes on to the next entries.
proof fn lemma_roman_repeats(q: nat, r: nat, k: nat, val: nat, c: char)
    requires
        k < 13,
        roman_value(k as int) == val,
        roman_symbol(k as int) == seq![c],
        val > 0,
        r < val,
    ensures
        roman_from(q * val + r, k) == letters(c, q) + roman_from(r, k + 1),
    decreases q,
{
    if q == 0 {
        assert(q * val + r == r) by (nonlinear_arith)
            requires
                q == 0,
        ;
        assert(roman_from(r, k) == roman_from(r, k + 1));
        assert(letters(c, 0) + roman_from(r, k + 1) =~= roman_from(r, k + 1));
    } else {
        let n = q * val + r;
        let q1 = (q - 1) as nat;
        assert(n - val == q1 * val + r && n >= val) by (nonlinear_arith)
            requires
                n == q * val + r,
                q1 == q - 1,
                q >= 1,
        ;
        lemma_roman_repeats(q1, r, k, val, c);
        assert(roman_from(n, k) == roman_symbol(k as int) + roman_from((n - val) as nat, k));
        assert(seq![c] + (letters(c, q1) + roman_from(r, k + 1)) =~= letters(c, q) + roman_from(r, k + 1));
    }
}

/// One decimal place, with its four table entries from `k0` on (worth
/// nine, five, four and one units `s`): digit `d` followed by a rest
/// below one unit is written as the digit's standard form.
proof fn lemma_roman_place(d: nat, r: nat, k0: nat, s: nat, one: char, five: char, ten: char)
    requires
        d < 10,
        r < s,
        k0 + 4 <= 13,
        roman_value(k0 as int) == 9 * s,
        roman_value((k0 + 1) as int) == 5 * s,
        roman_value((k0 + 2) as int) == 4 * s,
        roman_value((k0 + 3) as int) == s,
        roman_symbol(k0 as int) == seq![one, ten],
        roman_symbol((k0 + 1) as int) == seq![five],
        roman_symbol((k0 + 2) as int) == seq![one, five],
        roman_symbol((k0 + 3) as int) == seq![one],
    ensures
        roman_from(d * s + r, k0) == digit_roman(d, one, five, ten) + roman_from(r, k0 + 4),
{
    let n = d * s + r;
    let k1 = k0 + 1;
    let k2 = k0 + 2;
    let k3 = k0 + 3;
    let k4 = k0 + 4;
    assert(d <= 8 ==> n < 9 * s) by (nonlinear_arith)
        requires
            n == d * s + r,
            r < s,
    ;
    assert(d == 9 ==> n == 9 * s + r) by (nonlinear_arith)
        requires
            n == d * s + r,
    ;
    assert(d <= 4 ==> n < 5 * s) by (nonlinear_arith)
        requires
            n == d * s + r,
            r < s,
    ;
    assert(d >= 5 ==> n >= 5 * s && n - 5 * s == (d - 5) * s + r) by (nonlinear_arith)
        requires
            n == d * s + r,
    ;
    assert(d <= 3 ==> n < 4 * s) by (nonlinear_arith)
        requires
            n == d * s + r,
            r < s,
    ;
    assert(d == 4 ==> n == 4 * s + r) by (nonlinear_arith)
        requires
            n == d * s + r,
    ;
    // r is below every entry of the place.
    assert(roman_from(r, k3) == roman_from(r, k4));
    assert(roman_from(r, k2) == roman_from(r, k3));
    assert(roman_from(r, k1) == roman_from(r, k2));
    assert(roman_from(r, k0) == roman_from(r, k1));
    if d == 9 {
        assert(roman_from(n, k0) == roman_symbol(k0 as int) + roman_from(r, k0));
        assert(digit_roman(d, one, five, ten) == seq![one, ten]);
    } else if d >= 5 {
        let m = (d - 5) as nat;
        let rest = (n - 5 * s) as nat;
        assert(roman_from(n, k0) == roman_from(n, k1));
        assert(roman_from(n, k1) == roman_symbol(k1 as int) + roman_from(rest, k1));
        assert(rest < 4 * s) by (nonlinear_arith)
            requires
                rest == m * s + r,
                m <= 3,
                r < s,
        ;
        assert(roman_from(rest, k1) == roman_from(rest, k2));
        assert(roman_from(rest, k2) == roman_from(rest, k3));
        lemma_roman_repeats(m, r, k3, s, one);
        assert(seq![five] + (letters(one, m) + roman_from(r, k4)) =~= digit_roman(d, one, five, ten) + roman_from(
            r,
            k4,
        ));
    } else if d == 4 {
        assert(roman_from(n, k0) == roman_from(n, k1));
        assert(roman_from(n, k1) == roman_from(n, k2));
        assert(roman_from(n, k2) == roman_symbol(k2 as int) + roman_from(r, k2));
        assert(digit_roman(d, one, five, ten) == seq![one, five]);
    } else {
        assert(roman_from(n, k0) == roman_from(n, k1));
        assert(roman_from(n, k1) == roman_from(n, k2));
        assert(roman_from(n, k2) == roman_from(n, k3));
        lemma_roman_repeats(d, r, k3, s, one);
        assert(letters(one, d) =~= digit_roman(d, one, five, ten));
    }
}

/// The Roman numeral of `value` is written digit by digit in the standard
/// form: one M per thousand, then the hundreds with C, D, M, the tens
/// with X, L, C and the units with I, V, X (4 is IV, 9 is IX, never IIII
/// or VIIII).
pub proof fn lemma_roman_numeral_is_standard(value: nat)
    ensures
        spec_roman(value) == letters('M', value / 1000) + digit_roman((value % 1000) / 100, 'C', 'D', 'M')
            + digit_roman((value % 100) / 10, 'X', 'L', 'C') + digit_roman(value % 10, 'I', 'V', 'X'),
{
    let v = value as int;
    let t = v / 1000;
    let rem = v % 1000;
    let h = rem / 100;
    let rem2 = v % 100;
    let te = rem2 / 10;
    let o = v % 10;
    vstd::arithmetic::div_mod::lemma_fundamental_div_mod(v, 1000);
    vstd::arithmetic::div_mod::lemma_fundamental_div_mod(rem, 100);
    vstd::arithmetic::div_mod::lemma_fundamental_div_mod(rem2, 10);
    vstd::arithmetic::div_mod::lemma_mod_mod(v, 100, 10);
    vstd::arithmetic::div_mod::lemma_mod_mod(v, 10, 10);
    assert(0 <= rem < 1000 && t >= 0);
    assert(0 <= rem % 100 < 100);
    assert(0 <= rem2 % 10 < 10);
    assert(rem % 100 == rem2);
    assert(rem2 % 10 == o);
    assert(0 <= h < 10);
    assert(0 <= te < 10);
    assert(v == t * 1000 + rem) by (nonlinear_arith)
        requires
            v == 1000 * (v / 1000) + v % 1000,
            t == v / 1000,
            rem == v % 1000,
    ;
    assert(rem == h * 100 + rem2) by (nonlinear_arith)
        requires
            rem == 100 * (rem / 100) + rem % 100,
            h == rem / 100,
            rem % 100 == rem2,
    ;
    assert(rem2 == te * 10 + o) by (nonlinear_arith)
        requires
            rem2 == 10 * (rem2 / 10) + rem2 % 10,
            te == rem2 / 10,
            rem2 % 10 == o,
    ;
    assert(o == o * 1 + 0);
    lemma_roman_repeats(t as nat, rem as nat, 0, 1000, 'M');
    lemma_roman_place(h as nat, rem2 as nat, 1, 100, 'C', 'D', 'M');
    lemma_roman_place(te as nat, o as nat, 5, 10, 'X', 'L', 'C');
    lemma_roman_place(o as nat, 0, 9, 1, 'I', 'V', 'X');
    assert(roman_from(0, 13) =~= Seq::<char>::empty());
    assert(spec_roman(value) =~= letters('M', t as nat) + digit_roman(h as nat, 'C', 'D', 'M') + digit_roman(
        te as nat,
        'X',
        'L',
        'C',
    ) + digit_roman(o as nat, 'I', 'V', 'X'));
}

/// The Roman numeral of any number reads back as that number: each
/// letter is worth its standard value (I 1, V 5, X 10, L 50, C 100,
/// D 500, M 1000) and a letter before a larger one is subtracted.
pub proof fn lemma_roman_numeral_reads_back(value: nat)
    ensures
        roman_read(spec_roman(value)) == value,
        letter_value('I') == 1 && letter_value('V') == 5 && letter_value('X') == 10 && letter_value('L') == 50,
        letter_value('C') == 100 && letter_value('D') == 500 && letter_value('M') == 1000,
{
    lemma_roman_from_reads_back(value, 0);
}

/// The `k`-th entry of the Roman numeral table.
fn roman_entry(k: usize) -> (entry: (usize, &'static str))
    requires
        k < 13,
    ensures
        entry.0 == roman_value(k as int),
        entry.1@ == roman_symbol(k as int),
{
    match k {
        0 => {
            proof {
                reveal_strlit("M");
            }
            (1000, "M")
        },
        1 => {
            proof {
                reveal_strlit("CM");
            }
            (900, "CM")
        },
        2 => {
            proof {
                reveal_strlit("D");
            }
            (500, "D")
        },
        3 => {
            proof {
                reveal_strlit("CD");
            }
            (400, "CD")
        },
        4 => {
            proof {
                reveal_strlit("C");
            }
            (100, "C")
        },
        5 => {
            proof {
                reveal_strlit("XC");
            }
            (90, "XC")
        },
        6 => {
            proof {
                reveal_strlit("L");
            }
            (50, "L")
        },
        7 => {
            proof {
                reveal_strlit("XL");
            }
            (40, "XL")
        },
        8 => {
            proof {
                reveal_strlit("X");
            }
            (10, "X")
        },
        9 => {
            proof {
                reveal_strlit("IX");
            }
            (9, "IX")
        },
        10 => {
            proof {
                reveal_strlit("V");
            }
            (5, "V")
        },
        11 => {
            proof {
                reveal_strlit("IV");
            }
            (4, "IV")
        },
        _ => {
            proof {
                reveal_strlit("I");
            }
            (1, "I")
        },
    }
}

/// The Roman numeral of `value` (`1` -> "I", `4` -> "IV", `14` ->
/// "XIV"), in standard subtractive notation; zero gives an empty text.
pub fn roman_numeral(value: usize) -> (text: String)
    ensures
        text@ == spec_roman(value as nat),
        roman_read(text@) == value,
        text@ == letters('M', (value / 1000) as nat) + digit_roman(((value % 1000) / 100) as nat, 'C', 'D', 'M')
            + digit_roman(((value % 100) / 10) as nat, 'X', 'L', 'C') + digit_roman((value % 10) as nat, 'I', 'V', 'X'),
{
    proof {
        lemma_roman_numeral_reads_back(value as nat);
        lemma_roman_numeral_is_standard(value as nat);
    }
    let mut text = String::new();
    let mut rest = value;
    let mut k: usize = 0;
    while k < 13
        invariant
            k <= 13,
            text@ + roman_from(rest as nat, k as nat) == spec_roman(value as nat),
        decreases 13 - k,
    {
        let (magnitude, symbol) = roman_entry(k);
        while rest >= magnitude
            invariant
                k < 13,
                magnitude == roman_value(k as int),
                symbol@ == roman_symbol(k as int),
                text@ + roman_from(rest as nat, k as nat) == spec_roman(value as nat),
            decreases rest,
        {
            let ghost before = text@;
            text.append(symbol);
            proof {
                assert(before + roman_from(rest as nat, k as nat) == before + (symbol@ + roman_from(
                    (rest - magnitude) as nat,
                    k as nat,
                )));
                assert(before + (symbol@ + roman_from((rest - magnitude) as nat, k as nat)) =~= text@ + roman_from(
                    (rest - magnitude) as nat,
                    k as nat,
                ));
            }
            rest = rest - magnitude;
        }
        k += 1;
    }
    proof {
        assert(text@ + Seq::<char>::empty() =~= text@);
    }
    text
}

/// The character of a decimal digit.
pub open spec fn digit_char(d: nat) -> char {
    if d == 0 {
        '0'
    } else if d == 1 {
        '1'
    } else if d == 2 {
        '2'
    } else if d == 3 {
        '3'
    } else if d == 4 {
        '4'
    } else if d == 5 {
        '5'
    } else if d == 6 {
        '6'
    } else if d == 7 {
        '7'
    } else if d == 8 {
        '8'
    } else {
        '9'
    }
}

/// Decimal notation of `n`, without leading zeros.
pub open spec fn spec_decimal(n: nat) -> Seq<char>
    decreases n,
{
    if n < 10 {
        seq![digit_char(n)]
    } else {
        spec_decimal(n / 10).push(digit_char(n % 10))
    }
}

/// The number a text of decimal digits stands for, read left to right,
/// each character worth its distance from '0'.
pub open spec fn decimal_read(s: Seq<char>) -> int
    decreases s.len(),
{
    if s.len() == 0 {
        0
    } else {
        decimal_read(s.drop_last()) * 10 + ((s.last() as int) - ('0' as int))
    }
}

proof fn lemma_digit_char_value(d: nat)
    requires
        d < 10,
    ensures
        (digit_char(d) as int) - ('0' as int) == d,
{
    assert(('0' as int) == 48);
    assert(('1' as int) == 49);
    assert(('9' as int) == 57);
}

/// The decimal text of any number reads back as that number, uses only
/// the characters '0' to '9', and starts with '0' only for zero itself.
pub proof fn lemma_decimal_reads_back(n: nat)
    ensures
        decimal_read(spec_decimal(n)) == n,
        spec_decimal(n).len() > 0,
        forall|i: int| 0 <= i < spec_decimal(n).len() ==> '0' <= #[trigger] spec_decimal(n)[i] <= '9',
        spec_decimal(n)[0] == '0' ==> n == 0,
    decreases n,
{
    if n < 10 {
        let s = spec_decimal(n);
        assert(s.drop_last() =~= Seq::<char>::empty());
        assert(s.last() == digit_char(n));
        lemma_digit_char_value(n);
        assert(decimal_read(s.drop_last()) == 0);
        assert(decimal_read(s) == decimal_read(s.drop_last()) * 10 + ((s.last() as int) - ('0' as int)));
    } else {
        let q = n / 10;
        let r = n % 10;
        lemma_decimal_reads_back(q);
        let s = spec_decimal(n);
        assert(s.drop_last() =~= spec_decimal(q));
        assert(s.last() == digit_char(r));
        lemma_digit_char_value(r);
        assert(n == q * 10 + r);
        assert(decimal_read(s) == decimal_read(s.drop_last()) * 10 + ((s.last() as int) - ('0' as int)));
        assert forall|i: int| 0 <= i < s.len() implies '0' <= #[trigger] s[i] <= '9' by {
            if i < s.len() - 1 {
                assert(s[i] == spec_decimal(q)[i]);
            }
        }
        assert(s[0] == spec_decimal(q)[0]);
    }
}

/// The text of one decimal digit.
fn digit_text(d: u32) -> (text: &'static str)
    requires
        d < 10,
    ensures
        text@ == seq![digit_char(d as nat)],
{
    match d {
        0 => {
            proof {
                reveal_strlit("0");
            }
            "0"
        },
        1 => {
            proof {
                reveal_strlit("1");
            }
            "1"
        },
        2 => {
            proof {
                reveal_strlit("2");
            }
            "2"
        },
        3 => {
            proof {
                reveal_strlit("3");
            }
            "3"
        },
        4 => {
            proof {
                reveal_strlit("4");
            }
            "4"
        },
        5 => {
            proof {
                reveal_strlit("5");
            }
            "5"
        },
        6 => {
            proof {
                reveal_strlit("6");
            }
            "6"
        },
        7 => {
            proof {
                reveal_strlit("7");
            }
            "7"
        },
        8 => {
            proof {
                reveal_strlit("8");
            }
            "8"
        },
        _ => {
            proof {
                reveal_strlit("9");
            }
            "9"
        },
    }
}

/// Appends the decimal notation of `n`.
fn append_decimal(s: &mut String, n: u32)
    ensures
        final(s)@ == old(s)@ + spec_decimal(n as nat),
    decreases n,
{
    if n >= 10 {
        append_decimal(s, n / 10);
    }
    let ghost before = s@;
    s.append(digit_text(n % 10));
    proof {
        if n >= 10 {
            assert(s@ =~= old(s)@ + spec_decimal(n as nat));
        } else {
            assert(s@ =~= old(s)@ + spec_decimal(n as nat));
        }
    }
}

/// The text shown for a Hands HUD message, in the house's own words:
/// nothing for `NoMessage`.
pub open spec fn spec_hand_message_text(message: HandHudMessage) -> Option<Seq<char>> {
    match message {
        HandHudMessage::NoMessage => None,
        HandHudMessage::HouseIsReloading => Some("THE HOUSE IS RELOADING..."@),
        HandHudMessage::NextHandIn(remaining) => Some("NEXT HAND IN "@ + spec_decimal(remaining as nat) + "..."@),
        HandHudMessage::HandBanner(hand_number) => Some("HAND "@ + spec_roman(hand_number as nat)),
    }
}

/// The text shown for a Hands HUD message ("THE HOUSE IS
/// RELOADING...", "NEXT HAND IN 3...", "HAND IV"), or `None` when
/// there is nothing to show.
pub fn hand_message_text(message: HandHudMessage) -> (text: Option<String>)
    ensures
        match text {
            Some(t) => spec_hand_message_text(message) == Some(t@),
            None => spec_hand_message_text(message) is None,
        },
{
    match message {
        HandHudMessage::NoMessage => None,
        HandHudMessage::HouseIsReloading => Some("THE HOUSE IS RELOADING...".to_owned()),
        HandHudMessage::NextHandIn(remaining) => {
            let mut text = "NEXT HAND IN ".to_owned();
            append_decimal(&mut text, remaining);
            text.append("...");
            Some(text)
        },
        HandHudMessage::HandBanner(hand_number) => {
            let mut text = "HAND ".to_owned();
            let numeral = roman_numeral(hand_number);
            text.append(numeral.as_str());
            Some(text)
        },
    }
}

/// The two lines of The King's summoning warning for the threshold being
/// summoned (`summon_index`), or `None` when he is not summoning: the
/// first three thresholds announce five Dealers, the last one the final
/// Hand with ten.
pub fn king_summon_warning_lines(summon_index: Option<usize>) -> (lines: Option<(&'static str, &'static str)>)
    ensures
        match summon_index {
            Some(i) => if i <= 2 {
                lines matches Some(l) && l.0@ == "THE KING CALLS HIS HAND!"@ && l.1@ == "5 DEALERS JOIN THE HAND"@
            } else if i == 3 {
                lines matches Some(l) && l.0@ == "THE KING CALLS HIS FINAL HAND!"@ && l.1@
                    == "10 DEALERS JOIN THE HAND"@
            } else {
                lines is None
            },
            None => lines is None,
        },
{
    match summon_index {
        Some(i) => {
            if i <= 2 {
                Some(("THE KING CALLS HIS HAND!", "5 DEALERS JOIN THE HAND"))
            } else if i == 3 {
                Some(("THE KING CALLS HIS FINAL HAND!", "10 DEALERS JOIN THE HAND"))
            } else {
                None
            }
        },
        None => None,
    }
}

} // verus!
