//! Decimal rendering and parsing of the counters behind identifiers.
//!
//! An identifier is a one-letter prefix followed by the canonical decimal
//! form of a counter value: no sign, no leading zero except for `0` itself.

use vstd::prelude::*;

verus! {

/// The character for one decimal digit value.
pub open spec fn digit_char(d: nat) -> char {
    if d == 0 {
        '0'
    } else if d == 1 {
        '1'
    } else if d == 2 {
        '2'
    } else if d == 3 {
        '3'
    } else if d == 4 {
        '4'
    } else if d == 5 {
        '5'
    } else if d == 6 {
        '6'
    } else if d == 7 {
        '7'
    } else if d == 8 {
        '8'
    } else {
        '9'
    }
}

/// The canonical decimal rendering of a natural number.
pub open spec fn dec_str(n: nat) -> Seq<char>
    decreases n,
{
    if n < 10 {
        seq![digit_char(n)]
    } else {
        dec_str(n / 10).push(digit_char(n % 10))
    }
}

/// A decimal rendering is never empty, and needs two digits from ten up.
pub proof fn lemma_dec_str_len(n: nat)
    ensures
        dec_str(n).len() >= 1,
        n >= 10 ==> dec_str(n).len() >= 2,
    decreases n,
{
    if n >= 10 {
        lemma_dec_str_len(n / 10);
    }
}

/// Distinct numbers render to distinct decimal strings.
pub proof fn lemma_dec_str_injective(a: nat, b: nat)
    requires
        a != b,
    ensures
        dec_str(a) != dec_str(b),
    decreases a + b,
{
    lemma_dec_str_len(a);
    lemma_dec_str_len(b);
    if a < 10 && b < 10 {
        assert(dec_str(a)[0] == digit_char(a));
        assert(dec_str(b)[0] == digit_char(b));
        assert(digit_char(a) != digit_char(b));
    } else if a < 10 {
        assert(dec_str(a).len() == 1);
        assert(dec_str(b).len() >= 2);
    } else if b < 10 {
        assert(dec_str(a).len() >= 2);
        assert(dec_str(b).len() == 1);
    } else {
        if dec_str(a) == dec_str(b) {
            assert(dec_str(a).last() == digit_char(a % 10));
            assert(dec_str(b).last() == digit_char(b % 10));
            assert(a % 10 == b % 10);
            assert(dec_str(a).drop_last() =~= dec_str(a / 10));
            assert(dec_str(b).drop_last() =~= dec_str(b / 10));
            assert(dec_str(a / 10) == dec_str(b / 10));
            if a / 10 == b / 10 {
                assert(a == 10 * (a / 10) + a % 10);
                assert(b == 10 * (b / 10) + b % 10);
                assert(false);
            } else {
                lemma_dec_str_injective(a / 10, b / 10);
                assert(false);
            }
        }
    }
}

/// The string for one digit.
fn digit_string(d: u64) -> (r: String)
    requires
        d < 10,
    ensures
        r@ == seq![digit_char(d as nat)],
{
    let s: &str = if d == 0 {
        "0"
    } else if d == 1 {
        "1"
    } else if d == 2 {
        "2"
    } else if d == 3 {
        "3"
    } else if d == 4 {
        "4"
    } else if d == 5 {
        "5"
    } else if d == 6 {
        "6"
    } else if d == 7 {
        "7"
    } else if d == 8 {
        "8"
    } else {
        "9"
    };
    proof {
        reveal_strlit("0");
        reveal_strlit("1");
        reveal_strlit("2");
        reveal_strlit("3");
        reveal_strlit("4");
        reveal_strlit("5");
        reveal_strlit("6");
        reveal_strlit("7");
        reveal_strlit("8");
        reveal_strlit("9");
        assert(s@ =~= seq![digit_char(d as nat)]);
    }
    s.to_owned()
}

/// Render a counter value in canonical decimal form.
pub fn u64_to_dec(n: u64) -> (r: String)
    ensures
        r@ == dec_str(n as nat),
    decreases n,
{
    if n < 10 {
        digit_string(n)
    } else {
        let prefix = u64_to_dec(n / 10);
        let last = digit_string(n % 10);
        let r = prefix.concat(last.as_str());
        proof {
            assert(r@ =~= dec_str(n as nat));
        }
        r
    }
}

/// Whether a character is a decimal digit.
pub open spec fn is_digit_char(c: char) -> bool {
    48 <= c as u32 && c as u32 <= 57
}

/// The value of one decimal digit character.
pub open spec fn digit_val(c: char) -> nat {
    if c == '0' {
        0
    } else if c == '1' {
        1
    } else if c == '2' {
        2
    } else if c == '3' {
        3
    } else if c == '4' {
        4
    } else if c == '5' {
        5
    } else if c == '6' {
        6
    } else if c == '7' {
        7
    } else if c == '8' {
        8
    } else if c == '9' {
        9
    } else {
        0
    }
}

/// The value of a digit string.
pub open spec fn seq_val(t: Seq<char>) -> nat
    decreases t.len(),
{
    if t.len() == 0 {
        0
    } else {
        seq_val(t.drop_last()) * 10 + digit_val(t.last())
    }
}

/// The digit character of a value reads back as that value.
pub proof fn lemma_digit_char_val(d: nat)
    requires
        d < 10,
    ensures
        digit_val(digit_char(d)) == d,
        is_digit_char(digit_char(d)),
{
    if d == 0 {
        assert(digit_val('0') == 0 && '0' as u32 == 48);
    } else if d == 1 {
        assert(digit_val('1') == 1 && '1' as u32 == 49);
    } else if d == 2 {
        assert(digit_val('2') == 2 && '2' as u32 == 50);
    } else if d == 3 {
        assert(digit_val('3') == 3 && '3' as u32 == 51);
    } else if d == 4 {
        assert(digit_val('4') == 4 && '4' as u32 == 52);
    } else if d == 5 {
        assert(digit_val('5') == 5 && '5' as u32 == 53);
    } else if d == 6 {
        assert(digit_val('6') == 6 && '6' as u32 == 54);
    } else if d == 7 {
        assert(digit_val('7') == 7 && '7' as u32 == 55);
    } else if d == 8 {
        assert(digit_val('8') == 8 && '8' as u32 == 56);
    } else {
        assert(digit_val('9') == 9 && '9' as u32 == 57);
    }
}

/// A digit character is the character of its own value.
pub proof fn lemma_digit_val_char(c: char)
    requires
        is_digit_char(c),
    ensures
        digit_char(digit_val(c)) == c,
        digit_val(c) < 10,
        c != '0' ==> digit_val(c) >= 1,
{
    assert('0' as u32 == 48 && '1' as u32 == 49 && '2' as u32 == 50 && '3' as u32 == 51
        && '4' as u32 == 52 && '5' as u32 == 53 && '6' as u32 == 54 && '7' as u32 == 55
        && '8' as u32 == 56 && '9' as u32 == 57);
    if c == '0' {
    } else if c == '1' {
    } else if c == '2' {
    } else if c == '3' {
    } else if c == '4' {
    } else if c == '5' {
    } else if c == '6' {
    } else if c == '7' {
    } else if c == '8' {
    } else if c == '9' {
    } else {
        assert(c as u32 != 48 && c as u32 != 49 && c as u32 != 50 && c as u32 != 51 && c as u32
            != 52 && c as u32 != 53 && c as u32 != 54 && c as u32 != 55 && c as u32 != 56 && c
            as u32 != 57);
        assert(false);
    }
}

/// Every character of a decimal rendering is a digit.
pub proof fn lemma_dec_str_digits(n: nat)
    ensures
        forall|i: int| 0 <= i < dec_str(n).len() ==> is_digit_char(#[trigger] dec_str(n)[i]),
    decreases n,
{
    if n < 10 {
        assert(dec_str(n)[0] == digit_char(n));
    } else {
        lemma_dec_str_digits(n / 10);
        assert forall|i: int| 0 <= i < dec_str(n).len() implies is_digit_char(
            #[trigger] dec_str(n)[i],
        ) by {
            if i < dec_str(n).len() - 1 {
                assert(dec_str(n)[i] == dec_str(n / 10)[i]);
            } else {
                assert(dec_str(n)[i] == digit_char(n % 10));
            }
        }
    }
}

/// The value of a decimal rendering is the number rendered.
pub proof fn lemma_dec_str_val(n: nat)
    ensures
        seq_val(dec_str(n)) == n,
    decreases n,
{
    if n < 10 {
        assert(seq![digit_char(n)].drop_last() =~= Seq::<char>::empty());
        assert(seq_val(Seq::<char>::empty()) == 0);
        lemma_digit_char_val(n);
    } else {
        lemma_dec_str_val(n / 10);
        assert(dec_str(n).drop_last() =~= dec_str(n / 10));
        assert(dec_str(n).last() == digit_char(n % 10));
        lemma_digit_char_val(n % 10);
        assert(n == 10 * (n / 10) + n % 10);
    }
}

/// A positive number's rendering never opens with a zero.
pub proof fn lemma_dec_str_leading(n: nat)
    ensures
        n >= 1 ==> dec_str(n)[0] != '0',
    decreases n,
{
    if n >= 10 {
        lemma_dec_str_leading(n / 10);
        lemma_dec_str_len(n / 10);
        assert(dec_str(n)[0] == dec_str(n / 10)[0]);
    } else if n >= 1 {
        assert(dec_str(n)[0] == digit_char(n));
    }
}

/// A digit string that opens with a nonzero digit has a positive value.
proof fn lemma_seq_val_pos(t: Seq<char>)
    requires
        t.len() >= 1,
        is_digit_char(t[0]),
        t[0] != '0',
    ensures
        seq_val(t) >= 1,
    decreases t.len(),
{
    if t.len() == 1 {
        assert(t.drop_last() =~= Seq::<char>::empty());
        assert(seq_val(Seq::<char>::empty()) == 0);
        assert(t.last() == t[0]);
        lemma_digit_val_char(t[0]);
    } else {
        let dl = t.drop_last();
        assert(dl[0] == t[0]);
        lemma_seq_val_pos(dl);
        assert(seq_val(t) == seq_val(dl) * 10 + digit_val(t.last()));
        assert(seq_val(dl) * 10 >= 10);
    }
}

/// A nonempty all-digit string without a leading zero is the canonical
/// rendering of its own value.
pub proof fn lemma_canonical_digits(t: Seq<char>)
    requires
        t.len() >= 1,
        forall|i: int| 0 <= i < t.len() ==> is_digit_char(#[trigger] t[i]),
        t.len() > 1 ==> t[0] != '0',
    ensures
        t == dec_str(seq_val(t)),
    decreases t.len(),
{
    if t.len() == 1 {
        assert(t.drop_last() =~= Seq::<char>::empty());
        assert(seq_val(Seq::<char>::empty()) == 0);
        assert(t.last() == t[0]);
        lemma_digit_val_char(t[0]);
        assert(seq_val(t) == digit_val(t[0]));
        assert(seq_val(t) < 10);
        assert(dec_str(seq_val(t)) =~= t);
    } else {
        let dl = t.drop_last();
        assert forall|i: int| 0 <= i < dl.len() implies is_digit_char(#[trigger] dl[i]) by {
            assert(dl[i] == t[i]);
        }
        assert(dl[0] == t[0]);
        lemma_canonical_digits(dl);
        lemma_seq_val_pos(dl);
        let v = seq_val(t);
        let d = digit_val(t.last());
        assert(is_digit_char(t[t.len() - 1]));
        lemma_digit_val_char(t.last());
        assert(d < 10);
        assert(v == seq_val(dl) * 10 + d);
        assert(v >= 10) by {
            assert(seq_val(dl) * 10 >= 10);
        }
        assert(v / 10 == seq_val(dl) && v % 10 == d) by (nonlinear_arith)
            requires
                v == seq_val(dl) * 10 + d,
                d < 10,
        ;
        assert(dec_str(v) == dec_str(v / 10).push(digit_char(v % 10)));
        assert(dec_str(v) =~= t);
    }
}

/// A digit string's prefixes never exceed its value.
pub proof fn lemma_seq_val_prefix(t: Seq<char>, j: int)
    requires
        0 <= j <= t.len(),
    ensures
        seq_val(t.take(j)) <= seq_val(t),
    decreases t.len(),
{
    if j == t.len() {
        assert(t.take(j) =~= t);
    } else {
        let dl = t.drop_last();
        assert(t.take(j) =~= dl.take(j));
        lemma_seq_val_prefix(dl, j);
        assert(seq_val(t) == seq_val(dl) * 10 + digit_val(t.last()));
        assert(seq_val(dl) * 10 >= seq_val(dl));
    }
}

/// Whether a character is a decimal digit.
fn is_digit_exec(c: char) -> (r: bool)
    ensures
        r == is_digit_char(c),
{
    let u = c as u32;
    48 <= u && u <= 57
}

/// The value of one digit character.
fn digit_value(c: char) -> (r: u64)
    requires
        is_digit_char(c),
    ensures
        r as nat == digit_val(c),
        r < 10,
{
    if c == '0' {
        0
    } else if c == '1' {
        1
    } else if c == '2' {
        2
    } else if c == '3' {
        3
    } else if c == '4' {
        4
    } else if c == '5' {
        5
    } else if c == '6' {
        6
    } else if c == '7' {
        7
    } else if c == '8' {
        8
    } else {
        proof {
            assert(c as u32 == 57);
            assert(c == '9');
        }
        9
    }
}

/// Parse the canonical decimal rendering that fills `s` from position
/// `from` to its end: the result is `Some(k)` exactly when that suffix is
/// `dec_str(k)` for a value `k` the counter type can hold.
pub fn parse_dec(s: &str, from: usize) -> (r: Option<u64>)
    requires
        from <= s@.len(),
    ensures
        match r {
            Some(k) => s@.skip(from as int) == dec_str(k as nat),
            None => forall|k: u64| s@.skip(from as int) != #[trigger] dec_str(k as nat),
        },
{
    let ghost t = s@.skip(from as int);
    let n = s.unicode_len();
    if from >= n {
        proof {
            assert(t.len() == 0);
            assert forall|k: u64| t != #[trigger] dec_str(k as nat) by {
                lemma_dec_str_len(k as nat);
            }
        }
        return None;
    }
    let c0 = s.get_char(from);
    proof {
        assert(t[0] == s@[from as int]);
    }
    if !is_digit_exec(c0) {
        proof {
            assert forall|k: u64| t != #[trigger] dec_str(k as nat) by {
                lemma_dec_str_digits(k as nat);
                lemma_dec_str_len(k as nat);
                if t == dec_str(k as nat) {
                    assert(is_digit_char(t[0]));
                }
            }
        }
        return None;
    }
    if c0 == '0' && from + 1 < n {
        proof {
            assert(t.len() > 1);
            assert forall|k: u64| t != #[trigger] dec_str(k as nat) by {
                lemma_dec_str_len(k as nat);
                lemma_dec_str_leading(k as nat);
                if t == dec_str(k as nat) {
                    if k == 0 {
                        assert(dec_str(0nat).len() == 1);
                    } else {
                        assert(dec_str(k as nat)[0] != '0');
                    }
                }
            }
        }
        return None;
    }
    let mut acc: u64 = digit_value(c0);
    let mut j = from + 1;
    proof {
        assert(t.take(1).len() == 1);
        assert(seq_val(Seq::<char>::empty()) == 0);
        assert(t.take(1).drop_last() =~= Seq::<char>::empty());
        assert(t.take(1).last() == t[0]);
        assert(seq_val(t.take(1)) == digit_val(t[0]));
    }
    let mut more = true;
    while more
        invariant
            n == s@.len(),
            from < n,
            t == s@.skip(from as int),
            t.len() == n - from,
            from + 1 <= j <= n,
            acc as nat == seq_val(t.take(j - from)),
            forall|x: int| 0 <= x < j - from ==> is_digit_char(#[trigger] t[x]),
            t.len() > 1 ==> t[0] != '0',
            !more ==> j == n,
        decreases n - j + (if more { 1int } else { 0int }),
    {
        if j < n {
            let c = s.get_char(j);
            proof {
                assert(t[j - from] == s@[j as int]);
            }
            if is_digit_exec(c) {
                let d = digit_value(c);
                proof {
                    assert(t.take(j - from + 1).drop_last() =~= t.take(j - from));
                    assert(t.take(j - from + 1).last() == t[j - from]);
                    assert(seq_val(t.take(j - from + 1)) == (acc as nat) * 10 + digit_val(c));
                }
                if acc > (u64::MAX - d) / 10 {
                    proof {
                        let q = ((u64::MAX - d) / 10) as nat;
                        let rem = ((u64::MAX - d) % 10) as nat;
                        assert(10 * q + rem == u64::MAX - d && rem < 10);
                        assert(acc as nat >= q + 1);
                        assert((acc as nat) * 10 >= (q + 1) * 10);
                        assert((acc as nat) * 10 + (d as nat) > u64::MAX as nat);
                        assert forall|k: u64| t != #[trigger] dec_str(k as nat) by {
                            if t == dec_str(k as nat) {
                                lemma_dec_str_val(k as nat);
                                lemma_seq_val_prefix(t, j - from + 1);
                                assert(seq_val(t) == k as nat);
                                assert(seq_val(t.take(j - from + 1)) <= k as nat);
                            }
                        }
                    }
                    return None;
                }
                proof {
                    let q = ((u64::MAX - d) / 10) as nat;
                    let rem = ((u64::MAX - d) % 10) as nat;
                    assert(10 * q + rem == u64::MAX - d && rem < 10);
                    assert(acc as nat <= q);
                    assert((acc as nat) * 10 <= q * 10);
                    assert((acc as nat) * 10 + (d as nat) <= u64::MAX as nat);
                }
                acc = acc * 10 + d;
                j = j + 1;
            } else {
                proof {
                    assert(!is_digit_char(t[j - from]));
                    assert forall|k: u64| t != #[trigger] dec_str(k as nat) by {
                        lemma_dec_str_digits(k as nat);
                        if t == dec_str(k as nat) {
                            assert(is_digit_char(t[j - from]));
                        }
                    }
                }
                return None;
            }
        } else {
            more = false;
        }
    }
    proof {
        assert(t.take((n - from) as int) =~= t);
        lemma_canonical_digits(t);
        assert(t == dec_str(acc as nat));
    }
    Some(acc)
}

/// Relies on `String`'s `FromIterator<char>` implementation from std:
/// collecting characters yields the string holding exactly those characters
/// in order.
#[verifier::external_body]
pub fn string_from_chars(chars: &Vec<char>) -> (r: String)
    ensures
        r@ == chars@,
{
    chars.iter().collect()
}

} // verus!
