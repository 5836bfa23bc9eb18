//! The on-disk record format for one cache entry.
//!
//! An entry file holds a self-describing record of the key and the value,
//! because the file's name (a digest of the key) cannot be reversed to
//! recover the key.  The record is the key's length in characters, written
//! as exactly twenty decimal digits with leading zeros, followed by the key
//! and then the value.  Twenty digits cover every length a string in memory
//! can have, and the fixed width makes the record unambiguous: decoding is
//! the exact inverse of encoding.
use vstd::prelude::*;

verus! {

pub open spec fn digit_char(d: nat) -> char {
    if d == 0 {
        '0'
    } else if d == 1 {
        '1'
    } else if d == 2 {
        '2'
    } else if d == 3 {
        '3'
    } else if d == 4 {
        '4'
    } else if d == 5 {
        '5'
    } else if d == 6 {
        '6'
    } else if d == 7 {
        '7'
    } else if d == 8 {
        '8'
    } else {
        '9'
    }
}

pub open spec fn is_digit_char(c: char) -> bool {
    c == '0' || c == '1' || c == '2' || c == '3' || c == '4' || c == '5' || c == '6' || c == '7'
        || c == '8' || c == '9'
}

pub open spec fn digit_val(c: char) -> nat {
    if c == '1' {
        1
    } else if c == '2' {
        2
    } else if c == '3' {
        3
    } else if c == '4' {
        4
    } else if c == '5' {
        5
    } else if c == '6' {
        6
    } else if c == '7' {
        7
    } else if c == '8' {
        8
    } else if c == '9' {
        9
    } else {
        0
    }
}

pub open spec fn pow10(w: nat) -> nat
    decreases w,
{
    if w == 0 {
        1
    } else {
        10 * pow10((w - 1) as nat)
    }
}

/// The number `n`, written as exactly `w` decimal digits with leading zeros;
/// digits beyond the first `w` are dropped.
pub open spec fn dec_fixed(n: nat, w: nat) -> Seq<char>
    decreases w,
{
    if w == 0 {
        Seq::empty()
    } else {
        dec_fixed(n / 10, (w - 1) as nat).push(digit_char(n % 10))
    }
}

pub open spec fn all_digits(s: Seq<char>) -> bool {
    forall|i: int| 0 <= i < s.len() ==> is_digit_char(s[i])
}

/// The number a digit string denotes, most significant digit first.
pub open spec fn fold_digits(s: Seq<char>) -> nat
    decreases s.len(),
{
    if s.len() == 0 {
        0
    } else {
        fold_digits(s.drop_last()) * 10 + digit_val(s.last())
    }
}

/// The record for the pair `(key, value)`: twenty digits of the key's
/// length, then the key, then the value.
pub open spec fn encode_spec(key: Seq<char>, value: Seq<char>) -> Seq<char> {
    dec_fixed(key.len(), 20) + key + value
}

/// The pair a record holds, or nothing if the text is not a record.
pub open spec fn decode_spec(s: Seq<char>) -> Option<(Seq<char>, Seq<char>)> {
    if s.len() >= 20 && all_digits(s.subrange(0, 20)) && fold_digits(s.subrange(0, 20)) + 20
        <= s.len() {
        Some(
            (
                s.subrange(20, 20 + fold_digits(s.subrange(0, 20)) as int),
                s.subrange(20 + fold_digits(s.subrange(0, 20)) as int, s.len() as int),
            ),
        )
    } else {
        None
    }
}

pub proof fn lemma_dec_fixed_len(n: nat, w: nat)
    ensures
        dec_fixed(n, w).len() == w,
    decreases w,
{
    if w > 0 {
        lemma_dec_fixed_len(n / 10, (w - 1) as nat);
    }
}

pub proof fn lemma_dec_fixed_digits(n: nat, w: nat)
    ensures
        all_digits(dec_fixed(n, w)),
    decreases w,
{
    if w > 0 {
        lemma_dec_fixed_digits(n / 10, (w - 1) as nat);
        assert(is_digit_char(digit_char(n % 10)));
        assert forall|i: int| 0 <= i < dec_fixed(n, w).len() implies is_digit_char(
            dec_fixed(n, w)[i],
        ) by {
            if i < dec_fixed(n, w).len() - 1 {
                assert(dec_fixed(n, w)[i] == dec_fixed(n / 10, (w - 1) as nat)[i]);
            }
        }
    }
}

pub proof fn lemma_pow10_increases(v: nat, w: nat)
    requires
        v <= w,
    ensures
        pow10(v) <= pow10(w),
    decreases w,
{
    if v < w {
        lemma_pow10_increases(v, (w - 1) as nat);
    }
}

/// Reading the fixed-width digits of `n` back gives `n`, as long as `n`
/// fits in the width.
pub proof fn lemma_fold_dec_fixed(n: nat, w: nat)
    requires
        n < pow10(w),
    ensures
        fold_digits(dec_fixed(n, w)) == n,
    decreases w,
{
    if w == 0 {
        assert(n == 0);
    } else {
        assert(n / 10 < pow10((w - 1) as nat)) by {
            assert(n < 10 * pow10((w - 1) as nat));
        }
        lemma_fold_dec_fixed(n / 10, (w - 1) as nat);
        let s = dec_fixed(n, w);
        assert(s.drop_last() =~= dec_fixed(n / 10, (w - 1) as nat));
        assert(s.last() == digit_char(n % 10));
        assert(digit_val(digit_char(n % 10)) == n % 10);
        assert(fold_digits(s) == (n / 10) * 10 + n % 10);
        assert((n / 10) * 10 + n % 10 == n) by {
            vstd::arithmetic::div_mod::lemma_fundamental_div_mod(n as int, 10);
        }
    }
}

/// A digit string is the fixed-width form of the number it denotes: the
/// representation is unique.
pub proof fn lemma_dec_fixed_of_fold(s: Seq<char>)
    requires
        all_digits(s),
    ensures
        dec_fixed(fold_digits(s), s.len()) == s,
    decreases s.len(),
{
    if s.len() > 0 {
        let d = digit_val(s.last());
        let rest = fold_digits(s.drop_last());
        assert(all_digits(s.drop_last())) by {
            assert forall|i: int| 0 <= i < s.drop_last().len() implies is_digit_char(
                s.drop_last()[i],
            ) by {
                assert(s.drop_last()[i] == s[i]);
            }
        }
        lemma_dec_fixed_of_fold(s.drop_last());
        assert(d < 10);
        assert((rest * 10 + d) % 10 == d && (rest * 10 + d) / 10 == rest) by {
            vstd::arithmetic::div_mod::lemma_fundamental_div_mod_converse(
                (rest * 10 + d) as int,
                10,
                rest as int,
                d as int,
            );
        }
        assert(is_digit_char(s.last()));
        assert(digit_char(d) == s.last());
        assert(dec_fixed(fold_digits(s), s.len()) =~= s);
    } else {
        assert(dec_fixed(fold_digits(s), s.len()) =~= s);
    }
}

/// Decoding is the inverse of encoding: every record reads back as the pair
/// it was made from.  The one bound is the format's own: the key must be
/// shorter than the twenty-digit length field can count, which every string
/// held in memory is.
pub proof fn lemma_encode_decode(key: Seq<char>, value: Seq<char>)
    requires
        key.len() < pow10(20),
    ensures
        decode_spec(encode_spec(key, value)) == Some((key, value)),
{
    let s = encode_spec(key, value);
    lemma_dec_fixed_len(key.len(), 20);
    lemma_dec_fixed_digits(key.len(), 20);
    assert(s.subrange(0, 20) =~= dec_fixed(key.len(), 20));
    lemma_fold_dec_fixed(key.len(), 20);
    let n = key.len() as int;
    assert(s.subrange(20, 20 + n) =~= key);
    assert(s.subrange(20 + n, s.len() as int) =~= value);
}

/// Encoding is the only way to make a record: whatever decodes was the
/// encoding of what it decodes to.  So two distinct pairs never share a
/// record, and a record pins its pair down.
pub proof fn lemma_decode_encode(s: Seq<char>)
    ensures
        decode_spec(s) matches Some(kv) ==> s == encode_spec(kv.0, kv.1),
{
    if decode_spec(s) is Some {
        let prefix = s.subrange(0, 20);
        let n = fold_digits(prefix) as int;
        lemma_dec_fixed_of_fold(prefix);
        let key = s.subrange(20, 20 + n);
        let value = s.subrange(20 + n, s.len() as int);
        assert(key.len() == n);
        assert(dec_fixed(key.len(), 20) == prefix);
        assert(encode_spec(key, value) =~= s);
    }
}

fn digit_str(d: usize) -> (r: &'static str)
    requires
        d < 10,
    ensures
        r@ == seq![digit_char(d as nat)],
{
    proof {
        reveal_strlit("0");
        reveal_strlit("1");
        reveal_strlit("2");
        reveal_strlit("3");
        reveal_strlit("4");
        reveal_strlit("5");
        reveal_strlit("6");
        reveal_strlit("7");
        reveal_strlit("8");
        reveal_strlit("9");
    }
    let r: &'static str = if d == 0 {
        "0"
    } else if d == 1 {
        "1"
    } else if d == 2 {
        "2"
    } else if d == 3 {
        "3"
    } else if d == 4 {
        "4"
    } else if d == 5 {
        "5"
    } else if d == 6 {
        "6"
    } else if d == 7 {
        "7"
    } else if d == 8 {
        "8"
    } else {
        "9"
    };
    proof {
        assert(r@ =~= seq![digit_char(d as nat)]);
    }
    r
}

fn dec_fixed_exec(n: usize, w: usize) -> (r: String)
    ensures
        r@ == dec_fixed(n as nat, w as nat),
    decreases w,
{
    if w == 0 {
        let r = String::new();
        proof {
            assert(r@ =~= dec_fixed(n as nat, 0));
        }
        r
    } else {
        let mut s = dec_fixed_exec(n / 10, w - 1);
        s.append(digit_str(n % 10));
        proof {
            assert(s@ =~= dec_fixed(n as nat, w as nat));
        }
        s
    }
}

/// Build the record for `(key, value)`.
pub fn encode_entry(key: &str, value: &str) -> (r: String)
    ensures
        r@ == encode_spec(key@, value@),
{
    let n = key.unicode_len();
    let mut s = dec_fixed_exec(n, 20);
    s.append(key);
    s.append(value);
    proof {
        assert(s@ =~= encode_spec(key@, value@));
    }
    s
}

fn digit_of(c: char) -> (r: Option<usize>)
    ensures
        match r {
            Some(d) => is_digit_char(c) && d == digit_val(c) && d < 10,
            None => !is_digit_char(c),
        },
{
    if c == '0' {
        Some(0)
    } else if c == '1' {
        Some(1)
    } else if c == '2' {
        Some(2)
    } else if c == '3' {
        Some(3)
    } else if c == '4' {
        Some(4)
    } else if c == '5' {
        Some(5)
    } else if c == '6' {
        Some(6)
    } else if c == '7' {
        Some(7)
    } else if c == '8' {
        Some(8)
    } else if c == '9' {
        Some(9)
    } else {
        None
    }
}

/// Read a record back into its pair, or report that the text is not a
/// record.  The result is exactly what `decode_spec` says of the input.
pub fn decode_entry(s: &str) -> (r: Option<(String, String)>)
    ensures
        match r {
            Some(p) => decode_spec(s@) == Some((p.0@, p.1@)),
            None => decode_spec(s@) is None,
        },
{
    let l = s.unicode_len();
    if l < 20 {
        return None;
    }
    let mut acc: u128 = 0;
    let mut i: usize = 0;
    while i < 20
        invariant
            0 <= i <= 20,
            l == s@.len(),
            l >= 20,
            all_digits(s@.subrange(0, i as int)),
            acc == fold_digits(s@.subrange(0, i as int)),
            acc < pow10(i as nat),
        decreases 20 - i,
    {
        let c = s.get_char(i);
        let d = match digit_of(c) {
            Some(d) => d,
            None => {
                proof {
                    assert(s@.subrange(0, 20)[i as int] == s@[i as int]);
                    assert(!all_digits(s@.subrange(0, 20)));
                }
                return None;
            },
        };
        proof {
            lemma_pow10_increases(i as nat, 19);
            assert(pow10(20) == 100000000000000000000) by {
                reveal_with_fuel(pow10, 21);
            }
            assert(10 * acc + 9 < 10 * pow10(19));
            assert(10 * pow10(19) == pow10(20));
        }
        let ghost prefix = s@.subrange(0, i as int);
        acc = acc * 10 + (d as u128);
        i = i + 1;
        proof {
            assert(s@.subrange(0, i as int) =~= prefix.push(s@[i - 1]));
            assert(s@.subrange(0, i as int).drop_last() =~= prefix);
            assert(all_digits(s@.subrange(0, i as int))) by {
                assert forall|j: int| 0 <= j < i implies is_digit_char(
                    s@.subrange(0, i as int)[j],
                ) by {
                    if j < i - 1 {
                        assert(s@.subrange(0, i as int)[j] == prefix[j]);
                    }
                }
            }
        }
    }
    proof {
        assert(s@.subrange(0, i as int) == s@.subrange(0, 20));
    }
    if acc > (l - 20) as u128 {
        return None;
    }
    let n = acc as usize;
    let key = s.substring_char(20, 20 + n).to_owned();
    let value = s.substring_char(20 + n, l).to_owned();
    Some((key, value))
}

} // verus!
