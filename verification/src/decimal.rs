//! Decimal numerals: a sequence-level model of canonical base-ten text
//! (no superfluous leading zero), with verified rendering and parsing.
use vstd::prelude::*;
use vstd::string::*;

verus! {

/// The ten decimal digit characters.
pub open spec fn is_dec_digit(c: char) -> bool {
    c == '0' || c == '1' || c == '2' || c == '3' || c == '4' || c == '5' || c == '6' || c == '7'
        || c == '8' || c == '9'
}

/// The digit character for a value below ten.
pub open spec fn digit_char(d: nat) -> char {
    if d == 0 {
        '0'
    } else if d == 1 {
        '1'
    } else if d == 2 {
        '2'
    } else if d == 3 {
        '3'
    } else if d == 4 {
        '4'
    } else if d == 5 {
        '5'
    } else if d == 6 {
        '6'
    } else if d == 7 {
        '7'
    } else if d == 8 {
        '8'
    } else {
        '9'
    }
}

/// The value of a digit character (total; nine for anything else).
pub open spec fn digit_val(c: char) -> nat {
    if c == '0' {
        0
    } else if c == '1' {
        1
    } else if c == '2' {
        2
    } else if c == '3' {
        3
    } else if c == '4' {
        4
    } else if c == '5' {
        5
    } else if c == '6' {
        6
    } else if c == '7' {
        7
    } else if c == '8' {
        8
    } else {
        9
    }
}

/// The canonical decimal numeral of a natural number.
pub open spec fn dec_of(n: nat) -> Seq<char>
    decreases n,
{
    if n < 10 {
        seq![digit_char(n)]
    } else {
        dec_of(n / 10).push(digit_char(n % 10))
    }
}

/// The number denoted by a sequence of digit characters.
pub open spec fn val_of(s: Seq<char>) -> nat
    decreases s.len(),
{
    if s.len() == 0 {
        0
    } else {
        val_of(s.drop_last()) * 10 + digit_val(s.last())
    }
}

/// Every character of `s` is a decimal digit.
pub open spec fn all_dec_digits(s: Seq<char>) -> bool {
    forall|i: int| 0 <= i < s.len() ==> is_dec_digit(s[i])
}

/// A canonical numeral: at least one digit, no superfluous leading zero.
pub open spec fn canonical_numeral(s: Seq<char>) -> bool {
    s.len() >= 1 && all_dec_digits(s) && (s.len() == 1 || s[0] != '0')
}

/// Powers of ten.
pub open spec fn pow10(k: nat) -> nat
    decreases k,
{
    if k == 0 {
        1
    } else {
        10 * pow10((k - 1) as nat)
    }
}

/// The numeral `s`, sitting in `t` at position `pos` and ended there: the
/// following character, if any, is not a digit.
pub open spec fn numeral_at(t: Seq<char>, pos: int, s: Seq<char>) -> bool {
    &&& 0 <= pos
    &&& pos + s.len() <= t.len()
    &&& t.subrange(pos, pos + s.len()) == s
    &&& (pos + s.len() == t.len() || !is_dec_digit(t[pos + s.len()]))
}

/// A canonical numeral consists of digits and is never empty.
pub proof fn lemma_dec_of_canonical(n: nat)
    ensures
        canonical_numeral(dec_of(n)),
        dec_of(n).len() >= 1,
        all_dec_digits(dec_of(n)),
        dec_of(n)[0] == '0' ==> n == 0,
    decreases n,
{
    if n < 10 {
        assert(dec_of(n) =~= seq![digit_char(n)]);
        assert(is_dec_digit(digit_char(n)));
    } else {
        lemma_dec_of_canonical(n / 10);
        let p = dec_of(n / 10);
        let s = p.push(digit_char(n % 10));
        assert(dec_of(n) == s);
        assert(is_dec_digit(digit_char(n % 10)));
        assert forall|i: int| 0 <= i < s.len() implies is_dec_digit(s[i]) by {
            if i < p.len() {
                assert(s[i] == p[i]);
            }
        }
        assert(s[0] == p[0]);
        assert(n / 10 >= 1);
    }
}

/// Reading the canonical numeral of `n` back yields `n`.
pub proof fn lemma_val_of_dec_of(n: nat)
    ensures
        val_of(dec_of(n)) == n,
    decreases n,
{
    if n < 10 {
        reveal_with_fuel(val_of, 2);
        let s = seq![digit_char(n)];
        assert(s.drop_last() =~= Seq::<char>::empty());
        assert(s.last() == digit_char(n));
        assert(digit_val(digit_char(n)) == n);
    } else {
        lemma_val_of_dec_of(n / 10);
        let p = dec_of(n / 10);
        let s = p.push(digit_char(n % 10));
        assert(s.drop_last() =~= p);
        assert(s.last() == digit_char(n % 10));
        assert(digit_val(digit_char(n % 10)) == n % 10);
        assert(val_of(s) == (n / 10) * 10 + n % 10);
        assert((n / 10) * 10 + n % 10 == n) by (nonlinear_arith);
    }
}

/// Distinct numbers have distinct canonical numerals.
pub proof fn lemma_dec_of_injective(a: nat, b: nat)
    ensures
        dec_of(a) == dec_of(b) ==> a == b,
{
    lemma_val_of_dec_of(a);
    lemma_val_of_dec_of(b);
}

/// A numeral that does not start with zero denotes a positive number.
pub proof fn lemma_val_of_positive(s: Seq<char>)
    requires
        s.len() >= 1,
        s[0] != '0',
    ensures
        val_of(s) >= 1,
    decreases s.len(),
{
    if s.len() == 1 {
        assert(digit_val(s.last()) >= 1);
    } else {
        let t = s.drop_last();
        assert(t[0] == s[0]);
        lemma_val_of_positive(t);
    }
}

/// Printing the value of a canonical numeral yields that numeral back.
pub proof fn lemma_canonical_dec_of(s: Seq<char>)
    requires
        canonical_numeral(s),
    ensures
        dec_of(val_of(s)) == s,
    decreases s.len(),
{
    if s.len() == 1 {
        reveal_with_fuel(val_of, 2);
        let c = s[0];
        assert(s.drop_last() =~= Seq::<char>::empty());
        assert(s.last() == c);
        assert(val_of(s) == digit_val(c));
        assert(digit_char(digit_val(c)) == c);
        assert(dec_of(val_of(s)) =~= s);
    } else {
        let t = s.drop_last();
        let c = s.last();
        assert(t[0] == s[0]);
        assert forall|i: int| 0 <= i < t.len() implies is_dec_digit(t[i]) by {
            assert(t[i] == s[i]);
        }
        lemma_canonical_dec_of(t);
        lemma_val_of_positive(t);
        let v = val_of(s);
        assert(v == val_of(t) * 10 + digit_val(c));
        assert(val_of(t) * 10 >= 10) by (nonlinear_arith)
            requires
                val_of(t) >= 1,
        ;
        assert(digit_val(c) <= 9);
        assert(v / 10 == val_of(t) && v % 10 == digit_val(c)) by (nonlinear_arith)
            requires
                v == val_of(t) * 10 + digit_val(c),
                digit_val(c) <= 9,
        ;
        assert(digit_char(digit_val(c)) == c);
        assert(dec_of(v) == dec_of(val_of(t)).push(digit_char(v % 10)));
        assert(dec_of(v) =~= s);
    }
}

/// A number below the `k`-th power of ten has a numeral of at most `k` digits.
pub proof fn lemma_dec_of_len(n: nat, k: nat)
    requires
        n < pow10(k),
        k >= 1,
    ensures
        dec_of(n).len() <= k,
    decreases n,
{
    if n < 10 {
    } else {
        assert(pow10(k) == 10 * pow10((k - 1) as nat));
        assert(n / 10 < pow10((k - 1) as nat)) by (nonlinear_arith)
            requires
                n < 10 * pow10((k - 1) as nat),
                n >= 10,
        ;
        assert((k - 1) as nat >= 1) by {
            if k == 1 {
                assert(pow10(0nat) == 1);
                assert(n / 10 < 1);
                assert(false);
            }
        }
        lemma_dec_of_len(n / 10, (k - 1) as nat);
    }
}

/// The single-character string for a digit value.
fn digit_str(d: u64) -> (r: &'static str)
    requires
        d < 10,
    ensures
        r@ =~= seq![digit_char(d as nat)],
{
    proof {
        reveal_strlit("0");
        reveal_strlit("1");
        reveal_strlit("2");
        reveal_strlit("3");
        reveal_strlit("4");
        reveal_strlit("5");
        reveal_strlit("6");
        reveal_strlit("7");
        reveal_strlit("8");
        reveal_strlit("9");
    }
    match d {
        0 => "0",
        1 => "1",
        2 => "2",
        3 => "3",
        4 => "4",
        5 => "5",
        6 => "6",
        7 => "7",
        8 => "8",
        _ => "9",
    }
}

/// Renders `n` as its canonical decimal numeral.
pub fn u64_to_decimal(n: u64) -> (s: String)
    ensures
        s@ == dec_of(n as nat),
    decreases n,
{
    if n < 10 {
        let s = String::from_str(digit_str(n));
        proof {
            assert(s@ =~= dec_of(n as nat));
        }
        s
    } else {
        let mut s = u64_to_decimal(n / 10);
        s.append(digit_str(n % 10));
        proof {
            assert(s@ =~= dec_of((n / 10) as nat).push(digit_char((n % 10) as nat)));
        }
        s
    }
}

/// The digit value of a character, if it is one.
fn digit_value(c: char) -> (r: Option<u64>)
    ensures
        r matches Some(d) ==> is_dec_digit(c) && d < 10 && d as nat == digit_val(c),
        r is None ==> !is_dec_digit(c),
{
    match c {
        '0' => Some(0),
        '1' => Some(1),
        '2' => Some(2),
        '3' => Some(3),
        '4' => Some(4),
        '5' => Some(5),
        '6' => Some(6),
        '7' => Some(7),
        '8' => Some(8),
        '9' => Some(9),
        _ => None,
    }
}

/// Reads the canonical numeral of a 32-bit number from `text` at `start`.
/// Succeeds exactly when such a numeral sits there, ended by a non-digit or
/// by the end of the text.
pub fn parse_u32_at(text: &str, start: usize) -> (r: Option<(u32, usize)>)
    requires
        start <= text@.len(),
    ensures
        r matches Some((val, end)) ==> {
            &&& start < end <= text@.len()
            &&& text@.subrange(start as int, end as int) == dec_of(val as nat)
            &&& numeral_at(text@, start as int, dec_of(val as nat))
        },
        r is None ==> forall|n: u32| !numeral_at(text@, start as int, #[trigger] dec_of(n as nat)),
{
    let ghost t = text@;
    let len = text.unicode_len();
    if start == len {
        proof {
            assert forall|n: u32| !numeral_at(t, start as int, #[trigger] dec_of(n as nat)) by {
                lemma_dec_of_canonical(n as nat);
            }
        }
        return None;
    }
    let c0 = text.get_char(start);
    let d0 = match digit_value(c0) {
        Some(d) => d,
        None => {
            proof {
                assert forall|n: u32| !numeral_at(t, start as int, #[trigger] dec_of(n as nat)) by {
                    lemma_dec_of_canonical(n as nat);
                    if numeral_at(t, start as int, dec_of(n as nat)) {
                        assert(t.subrange(
                            start as int,
                            start + dec_of(n as nat).len(),
                        )[0] == t[start as int]);
                    }
                }
            }
            return None;
        },
    };
    if d0 == 0 {
        // a canonical numeral starting with '0' is exactly "0"
        let mut one_more = false;
        if start + 1 < len {
            let c1 = text.get_char(start + 1);
            match digit_value(c1) {
                Some(_) => {
                    one_more = true;
                },
                None => {},
            }
        }
        if one_more {
            proof {
                assert forall|n: u32| !numeral_at(t, start as int, #[trigger] dec_of(n as nat)) by {
                    lemma_dec_of_canonical(n as nat);
                    if numeral_at(t, start as int, dec_of(n as nat)) {
                        let s = dec_of(n as nat);
                        assert(t.subrange(start as int, start + s.len())[0] == t[start as int]);
                        assert(s[0] == '0');
                        assert(n == 0);
                        assert(s.len() == 1);
                    }
                }
            }
            return None;
        }
        proof {
            assert(t.subrange(start as int, start + 1) =~= seq![t[start as int]]);
            assert(dec_of(0nat) =~= seq!['0']);
        }
        return Some((0, start + 1));
    }
    let mut acc: u64 = d0;
    let mut i = start + 1;
    proof {
        reveal_with_fuel(val_of, 2);
        reveal_with_fuel(pow10, 2);
        assert(t.subrange(start as int, start + 1) =~= seq![t[start as int]]);
        assert(t.subrange(start as int, start + 1).drop_last() =~= Seq::<char>::empty());
        assert(val_of(t.subrange(start as int, start + 1)) == digit_val(t[start as int]));
        assert(pow10(1nat) == 10);
    }
    loop
        invariant
            start < i <= len,
            len == t.len(),
            i - start <= 10,
            t == text@,
            all_dec_digits(t.subrange(start as int, i as int)),
            t[start as int] != '0',
            acc == val_of(t.subrange(start as int, i as int)),
            acc < pow10((i - start) as nat),
        ensures
            start < i <= len,
            all_dec_digits(t.subrange(start as int, i as int)),
            t[start as int] != '0',
            acc == val_of(t.subrange(start as int, i as int)),
            i == len || !is_dec_digit(t[i as int]),
        decreases len - i,
    {
        if i == len {
            break ;
        }
        let c = text.get_char(i);
        match digit_value(c) {
            None => { break ; },
            Some(d) => {
                if i - start == 10 {
                    // an eleventh digit: no 32-bit numeral can end here
                    proof {
                        lemma_pow10_ten();
                        assert forall|n: u32|
                            !numeral_at(t, start as int, #[trigger] dec_of(n as nat)) by {
                            lemma_dec_of_canonical(n as nat);
                            if numeral_at(t, start as int, dec_of(n as nat)) {
                                let s = dec_of(n as nat);
                                assert(n < pow10(10)) by {
                                    lemma_pow10_ten();
                                };
                                lemma_dec_of_len(n as nat, 10);
                                let stop = start + s.len();
                                assert(stop <= i < len);
                                if stop < i {
                                    assert(is_dec_digit(
                                        t.subrange(start as int, i as int)[stop - start],
                                    ));
                                    assert(t[stop] == t.subrange(start as int, i as int)[stop
                                        - start]);
                                    assert(!is_dec_digit(t[stop]));
                                } else {
                                    assert(stop == i);
                                    assert(!is_dec_digit(t[i as int]));
                                }
                            }
                        }
                    }
                    return None;
                }
                proof {
                    lemma_pow10_ten();
                    lemma_pow10_monotonic((i - start) as nat, 10);
                    assert(acc * 10 + d < pow10((i - start) as nat) * 10) by (nonlinear_arith)
                        requires
                            acc < pow10((i - start) as nat),
                            d <= 9,
                    ;
                    assert(pow10(((i + 1) - start) as nat) == 10 * pow10((i - start) as nat));
                    assert(acc * 10 + d < 100_000_000_000) by (nonlinear_arith)
                        requires
                            acc < pow10((i - start) as nat),
                            pow10((i - start) as nat) <= 10_000_000_000,
                            d <= 9,
                    ;
                    assert(t.subrange(start as int, i + 1).drop_last() =~= t.subrange(
                        start as int,
                        i as int,
                    ));
                    assert(t.subrange(start as int, i + 1).last() == t[i as int]);
                    assert forall|j: int| 0 <= j < i + 1 - start implies is_dec_digit(
                        #[trigger] t.subrange(start as int, i + 1)[j],
                    ) by {
                        if j < i - start {
                            assert(t.subrange(start as int, i + 1)[j] == t.subrange(
                                start as int,
                                i as int,
                            )[j]);
                        }
                    }
                }
                acc = acc * 10 + d;
                i = i + 1;
            },
        }
    }
    // the maximal digit run is t[start..i], ended by the end or a non-digit
    let ghost run = t.subrange(start as int, i as int);
    proof {
        assert(i == len || !is_dec_digit(t[i as int]));
        assert(canonical_numeral(run));
    }
    if acc > 0xffff_ffff {
        proof {
            assert forall|n: u32| !numeral_at(t, start as int, #[trigger] dec_of(n as nat)) by {
                lemma_dec_of_canonical(n as nat);
                if numeral_at(t, start as int, dec_of(n as nat)) {
                    let s = dec_of(n as nat);
                    let stop = start + s.len();
                    if stop < i {
                        assert(stop < len);
                        assert(t[stop] == t.subrange(start as int, i as int)[stop - start]);
                        assert(is_dec_digit(t[stop]));
                        assert(false);
                    }
                    if stop > i {
                        assert(i < len && !is_dec_digit(t[i as int]));
                        assert(t[i as int] == s[i - start]);
                        assert(is_dec_digit(s[i - start]));
                        assert(false);
                    }
                    assert(stop == i);
                    assert(s =~= run);
                    lemma_val_of_dec_of(n as nat);
                    assert(acc == n);
                }
            }
        }
        return None;
    }
    proof {
        lemma_canonical_dec_of(run);
    }
    Some((acc as u32, i))
}

/// Two digit runs that sit at the same position and both end at a non-digit
/// (or at the end of the text) are the same run.
pub proof fn lemma_numeral_at_unique(t: Seq<char>, pos: int, s1: Seq<char>, s2: Seq<char>)
    requires
        numeral_at(t, pos, s1),
        numeral_at(t, pos, s2),
        all_dec_digits(s1),
        all_dec_digits(s2),
    ensures
        s1 == s2,
{
    if s1.len() < s2.len() {
        assert(t[pos + s1.len()] == t.subrange(pos, pos + s2.len())[s1.len() as int]);
        assert(is_dec_digit(s2[s1.len() as int]));
        assert(pos + s1.len() < t.len());
        assert(false);
    } else if s2.len() < s1.len() {
        assert(t[pos + s2.len()] == t.subrange(pos, pos + s1.len())[s2.len() as int]);
        assert(is_dec_digit(s1[s2.len() as int]));
        assert(pos + s2.len() < t.len());
        assert(false);
    } else {
        assert(s1 =~= s2);
    }
}

/// Ten to the tenth, spelled out.
pub proof fn lemma_pow10_ten()
    ensures
        pow10(10) == 10_000_000_000,
        pow10(11) == 100_000_000_000,
{
    reveal_with_fuel(pow10, 12);
}

/// Powers of ten grow with the exponent.
pub proof fn lemma_pow10_monotonic(a: nat, b: nat)
    requires
        a <= b,
    ensures
        pow10(a) <= pow10(b),
    decreases b,
{
    if a < b {
        lemma_pow10_monotonic(a, (b - 1) as nat);
        assert(pow10(b) == 10 * pow10((b - 1) as nat));
    }
}

} // verus!
