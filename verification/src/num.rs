//! Decimal text for numbers: the display form of a `Number`, the reading of
//! an integer literal token, and the round trip between the two.

use vstd::prelude::*;

verus! {

/// Whether `c` is a decimal digit.
pub open spec fn is_digit(c: char) -> bool {
    48 <= c as int <= 57
}

/// The numeric value of a digit character.
pub open spec fn digit_val(c: char) -> int {
    c as int - 48
}

/// The digit character for a value between 0 and 9.
pub open spec fn digit_char(d: int) -> char {
    if d == 0 {
        '0'
    } else if d == 1 {
        '1'
    } else if d == 2 {
        '2'
    } else if d == 3 {
        '3'
    } else if d == 4 {
        '4'
    } else if d == 5 {
        '5'
    } else if d == 6 {
        '6'
    } else if d == 7 {
        '7'
    } else if d == 8 {
        '8'
    } else {
        '9'
    }
}

/// The decimal digits of a natural number, most significant first.
pub open spec fn dec_nat(m: nat) -> Seq<char>
    decreases m,
{
    if m < 10 {
        seq![digit_char(m as int)]
    } else {
        dec_nat(m / 10).push(digit_char((m % 10) as int))
    }
}

/// The decimal text of an integer: a minus sign for a negative value,
/// then its digits.
pub open spec fn dec_int(n: int) -> Seq<char> {
    if n < 0 {
        seq!['-'] + dec_nat((-n) as nat)
    } else {
        dec_nat(n as nat)
    }
}

/// The value of a sequence of digit characters read in base ten.
pub open spec fn digits_val(s: Seq<char>) -> int
    decreases s.len(),
{
    if s.len() == 0 {
        0
    } else {
        10 * digits_val(s.drop_last()) + digit_val(s.last())
    }
}

/// Whether every character of `s` is a decimal digit.
pub open spec fn all_digits(s: Seq<char>) -> bool {
    forall|i: int| 0 <= i < s.len() ==> is_digit(s[i])
}

/// What reading `w` as a 32-bit integer literal yields: an optional minus
/// sign followed by one or more digits, with a value that fits in 32 signed
/// bits; any other text is no number at all.
pub open spec fn spec_parse_num(w: Seq<char>) -> Option<int> {
    let neg = w.len() > 0 && w[0] == '-';
    let body = if neg {
        w.drop_first()
    } else {
        w
    };
    if body.len() == 0 || !all_digits(body) {
        None
    } else {
        let v = if neg {
            -digits_val(body)
        } else {
            digits_val(body)
        };
        if -0x8000_0000 <= v <= 0x7fff_ffff {
            Some(v)
        } else {
            None
        }
    }
}

/// A digit sequence has a value of at least zero.
pub proof fn lemma_digits_val_nonneg(s: Seq<char>)
    requires
        all_digits(s),
    ensures
        digits_val(s) >= 0,
    decreases s.len(),
{
    if s.len() > 0 {
        assert(all_digits(s.drop_last()));
        lemma_digits_val_nonneg(s.drop_last());
    }
}

/// The decimal digits of `m` are digits, start with no minus sign, and read
/// back to `m`.
pub proof fn lemma_dec_nat(m: nat)
    ensures
        dec_nat(m).len() >= 1,
        all_digits(dec_nat(m)),
        digits_val(dec_nat(m)) == m,
        dec_nat(m)[0] != '-',
    decreases m,
{
    if m < 10 {
        let s = dec_nat(m);
        assert(s.drop_last() =~= Seq::<char>::empty());
        assert(s.last() == digit_char(m as int));
        assert(digit_val(digit_char(m as int)) == m);
        assert(digits_val(s) == 10 * digits_val(Seq::<char>::empty()) + digit_val(s.last()));
    } else {
        lemma_dec_nat(m / 10);
        let p = dec_nat(m / 10);
        let c = digit_char((m % 10) as int);
        assert(p.push(c).drop_last() =~= p);
        assert(p.push(c).last() == c);
        assert(digits_val(p.push(c)) == 10 * (m / 10) + (m % 10));
        assert(10 * (m / 10) + (m % 10) == m) by (nonlinear_arith);
        assert(p.push(c)[0] == p[0]);
    }
}

/// Reading back the decimal text of any 32-bit integer yields that integer.
pub proof fn lemma_dec_round_trip(n: int)
    requires
        -0x8000_0000 <= n <= 0x7fff_ffff,
    ensures
        spec_parse_num(dec_int(n)) == Some(n),
{
    if n < 0 {
        let m = (-n) as nat;
        lemma_dec_nat(m);
        let w = dec_int(n);
        assert(w[0] == '-');
        assert(w.drop_first() =~= dec_nat(m));
    } else {
        lemma_dec_nat(n as nat);
        let w = dec_int(n);
        assert(is_digit(w[0]));
    }
}

/// The digit character of a digit value, as text of one character.
fn digit_str(d: u64) -> (s: &'static str)
    requires
        d < 10,
    ensures
        s@ == seq![digit_char(d as int)],
{
    proof {
        reveal_strlit("0");
        reveal_strlit("1");
        reveal_strlit("2");
        reveal_strlit("3");
        reveal_strlit("4");
        reveal_strlit("5");
        reveal_strlit("6");
        reveal_strlit("7");
        reveal_strlit("8");
        reveal_strlit("9");
    }
    let s = if d == 0 {
        "0"
    } else if d == 1 {
        "1"
    } else if d == 2 {
        "2"
    } else if d == 3 {
        "3"
    } else if d == 4 {
        "4"
    } else if d == 5 {
        "5"
    } else if d == 6 {
        "6"
    } else if d == 7 {
        "7"
    } else if d == 8 {
        "8"
    } else {
        "9"
    };
    proof {
        assert(s@ =~= seq![digit_char(d as int)]);
    }
    s
}

/// The digit characters of `ds` read back to front.
spec fn rev_digit_chars(ds: Seq<u64>) -> Seq<char> {
    Seq::new(ds.len(), |i: int| digit_char(ds[ds.len() - 1 - i] as int))
}

/// The decimal text of a 32-bit integer.
#[verifier::loop_isolation(false)]
pub fn num_to_string(n: i32) -> (r: String)
    ensures
        r@ == dec_int(n as int),
{
    let neg = n < 0;
    let mag: u64 = if n < 0 {
        (-(n as i64)) as u64
    } else {
        n as u64
    };
    let mut ds: Vec<u64> = Vec::new();
    let mut m: u64 = mag;
    if m == 0 {
        ds.push(0);
        proof {
            assert(rev_digit_chars(ds@) =~= dec_nat(mag as nat));
        }
    } else {
        while m > 0
            invariant
                m > 0 ==> dec_nat(mag as nat) =~= dec_nat(m as nat) + rev_digit_chars(ds@),
                m == 0 ==> dec_nat(mag as nat) =~= rev_digit_chars(ds@),
                forall|i: int| 0 <= i < ds@.len() ==> ds@[i] < 10,
            decreases m,
        {
            let d = m % 10;
            let m2 = m / 10;
            let ghost old_ds = ds@;
            ds.push(d);
            proof {
                if m2 > 0 {
                    assert(dec_nat(m as nat) == dec_nat(m2 as nat).push(digit_char(d as int)));
                    assert(dec_nat(m2 as nat) + rev_digit_chars(ds@) =~= dec_nat(m as nat)
                        + rev_digit_chars(old_ds));
                } else {
                    assert(m < 10);
                    assert(dec_nat(m as nat) =~= seq![digit_char(d as int)]);
                    assert(rev_digit_chars(ds@) =~= dec_nat(m as nat) + rev_digit_chars(old_ds));
                }
            }
            m = m2;
        }
    }
    let ghost target = dec_int(n as int);
    let ghost sign: Seq<char> = if neg {
        seq!['-']
    } else {
        Seq::empty()
    };
    proof {
        assert(target =~= sign + rev_digit_chars(ds@));
    }
    let mut r = String::new();
    if neg {
        r.append("-");
        proof {
            reveal_strlit("-");
            assert(r@ =~= sign);
        }
    }
    let mut i: usize = ds.len();
    while i > 0
        invariant
            i <= ds@.len(),
            r@ =~= sign + rev_digit_chars(ds@).take(ds@.len() - i),
        decreases i,
    {
        i = i - 1;
        let s = digit_str(ds[i]);
        let ghost before = r@;
        r.append(s);
        proof {
            let j = ds@.len() - 1 - i;
            assert(rev_digit_chars(ds@)[j] == digit_char(ds@[i as int] as int));
            assert(r@ =~= sign + rev_digit_chars(ds@).take(j + 1));
        }
    }
    proof {
        assert(rev_digit_chars(ds@).take(ds@.len() as int) =~= rev_digit_chars(ds@));
        assert(r@ =~= target);
    }
    r
}

/// Read a token as a 32-bit integer literal, exactly as
/// [`spec_parse_num`] describes.
#[verifier::loop_isolation(false)]
pub fn parse_num(w: &str) -> (r: Option<i32>)
    ensures
        match r {
            Some(n) => spec_parse_num(w@) == Some(n as int),
            None => spec_parse_num(w@) is None,
        },
{
    let len = w.unicode_len();
    if len == 0 {
        return None;
    }
    let neg = w.get_char(0) == '-';
    let start: usize = if neg {
        1
    } else {
        0
    };
    if start == len {
        return None;
    }
    let ghost body: Seq<char> = if neg {
        w@.drop_first()
    } else {
        w@
    };
    let mut i: usize = start;
    let mut acc: u64 = 0;
    let mut big = false;
    while i < len
        invariant
            start <= i <= len,
            all_digits(body.take(i - start)),
            !big ==> acc == digits_val(body.take(i - start)) && acc <= 0x8000_0000,
            big ==> digits_val(body.take(i - start)) > 0x8000_0000,
        decreases len - i,
    {
        let c = w.get_char(i);
        let cu = c as u32;
        if cu < 48 || cu > 57 {
            proof {
                assert(body[i - start] == w@[i as int]);
                assert(!is_digit(body[i - start]));
            }
            return None;
        }
        let d = (cu - 48) as u64;
        let ghost seen = body.take(i - start);
        let ghost seen2 = body.take(i + 1 - start);
        proof {
            assert(seen2 =~= seen.push(w@[i as int]));
            assert(seen2.drop_last() =~= seen);
            assert(digits_val(seen2) == 10 * digits_val(seen) + d);
            lemma_digits_val_nonneg(seen);
        }
        if !big {
            acc = acc * 10 + d;
            if acc > 0x8000_0000 {
                big = true;
            }
        }
        i = i + 1;
    }
    proof {
        assert(body.take(len - start) =~= body);
    }
    if big {
        return None;
    }
    if neg {
        Some((-(acc as i64)) as i32)
    } else {
        if acc > 0x7fff_ffff {
            None
        } else {
            Some(acc as i32)
        }
    }
}

} // verus!
