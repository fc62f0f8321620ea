use vstd::prelude::*;

use vstd::string::{StrSliceExecFns, StringExecFns};

verus! {

/// An ASCII decimal digit.
pub open spec fn is_ascii_digit(c: char) -> bool {
    48 <= c as u32 <= 57
}

/// The value of one decimal digit character.
pub open spec fn digit_val(c: char) -> int {
    c as u32 - 48
}

/// Every character of `s` is a decimal digit.
pub open spec fn all_digits(s: Seq<char>) -> bool {
    forall|i: int| 0 <= i < s.len() ==> is_ascii_digit(s[i])
}

/// Every character of `s` is the digit zero.
pub open spec fn all_zeros(s: Seq<char>) -> bool {
    forall|i: int| 0 <= i < s.len() ==> s[i] == '0'
}

/// The number that the digit string `s` writes, most significant first.
pub open spec fn digits_val(s: Seq<char>) -> int
    decreases s.len(),
{
    if s.len() == 0 {
        0
    } else {
        digits_val(s.drop_last()) * 10 + digit_val(s.last())
    }
}

/// Position `i` splits `s` into an integer part, one decimal point, and a
/// fraction part; at least one of the two parts is non-empty.
pub open spec fn is_dot_split(s: Seq<char>, i: int) -> bool {
    &&& 0 <= i < s.len()
    &&& s.len() > 1
    &&& s[i] == '.'
    &&& all_digits(s.take(i))
    &&& all_digits(s.skip(i + 1))
}

/// `s` is a plain decimal number: digits, with at most one decimal point.
pub open spec fn wellformed_decimal(s: Seq<char>) -> bool {
    (s.len() > 0 && all_digits(s)) || (exists|i: int| is_dot_split(s, i))
}

/// The digits before the decimal point, or all of `s` when there is none.
pub open spec fn int_part(s: Seq<char>) -> Seq<char> {
    if exists|i: int| is_dot_split(s, i) {
        s.take(choose|i: int| is_dot_split(s, i))
    } else {
        s
    }
}

/// The digits after the decimal point, or nothing when there is none.
pub open spec fn frac_part(s: Seq<char>) -> Seq<char> {
    if exists|i: int| is_dot_split(s, i) {
        let i = choose|i: int| is_dot_split(s, i);
        s.skip(i + 1)
    } else {
        Seq::<char>::empty()
    }
}

/// The value of a fraction-digit string in parts per million: its first six
/// digits, padded with zeros on the right; further digits are cut off.
pub open spec fn frac_ppm(s: Seq<char>) -> int {
    digits_val(
        Seq::new(
            6,
            |i: int|
                if i < s.len() {
                    s[i]
                } else {
                    '0'
                },
        ),
    )
}

/// The value of the decimal string `s` in parts per million, rounded down.
pub open spec fn threshold_ppm_spec(s: Seq<char>) -> int {
    digits_val(int_part(s)) * 1_000_000 + frac_ppm(frac_part(s))
}

/// `s` writes a plain decimal number between 0 and 1 inclusive: no sign, no
/// exponent, and a value of at most one.
pub open spec fn valid_threshold(s: Seq<char>) -> bool {
    &&& wellformed_decimal(s)
    &&& (digits_val(int_part(s)) == 0 || (digits_val(int_part(s)) == 1 && all_zeros(frac_part(s))))
}

/// Powers of ten.
pub open spec fn pow10(k: int) -> int
    decreases k,
{
    if k <= 0 {
        1
    } else {
        10 * pow10(k - 1)
    }
}

proof fn lemma_pow10_values()
    ensures
        pow10(0) == 1,
        pow10(1) == 10,
        pow10(2) == 100,
        pow10(3) == 1000,
        pow10(4) == 10000,
        pow10(5) == 100000,
        pow10(6) == 1000000,
{
    assert(pow10(0) == 1);
    assert(pow10(1) == 10);
    assert(pow10(2) == 100);
    assert(pow10(3) == 1000);
    assert(pow10(4) == 10000);
    assert(pow10(5) == 100000);
    assert(pow10(6) == 1000000);
}

fn pow10_exec(k: u64) -> (r: u64)
    requires
        k <= 6,
    ensures
        r as int == pow10(k as int),
{
    proof {
        lemma_pow10_values();
    }
    if k == 0 {
        1
    } else if k == 1 {
        10
    } else if k == 2 {
        100
    } else if k == 3 {
        1000
    } else if k == 4 {
        10000
    } else if k == 5 {
        100000
    } else {
        1000000
    }
}

proof fn lemma_digits_val_nonneg(s: Seq<char>)
    requires
        all_digits(s),
    ensures
        digits_val(s) >= 0,
    decreases s.len(),
{
    if s.len() > 0 {
        assert(all_digits(s.drop_last()));
        lemma_digits_val_nonneg(s.drop_last());
    }
}

proof fn lemma_digits_val_zeros(s: Seq<char>)
    requires
        all_zeros(s),
    ensures
        digits_val(s) == 0,
    decreases s.len(),
{
    if s.len() > 0 {
        assert(all_zeros(s.drop_last()));
        lemma_digits_val_zeros(s.drop_last());
    }
}

proof fn lemma_digits_val_pad_zeros(s: Seq<char>, k: int)
    requires
        k >= 0,
    ensures
        digits_val(s + Seq::new(k as nat, |i: int| '0')) == digits_val(s) * pow10(k),
    decreases k,
{
    let zeros = Seq::new(k as nat, |i: int| '0');
    if k == 0 {
        assert(s + zeros =~= s);
    } else {
        let shorter = Seq::new((k - 1) as nat, |i: int| '0');
        assert((s + zeros).drop_last() =~= s + shorter);
        assert((s + zeros).last() == '0');
        lemma_digits_val_pad_zeros(s, k - 1);
        assert(digits_val(s + zeros) == digits_val(s) * pow10(k - 1) * 10);
        assert(digits_val(s) * pow10(k - 1) * 10 == digits_val(s) * (10 * pow10(k - 1)))
            by (nonlinear_arith);
    }
}

proof fn lemma_dot_split_unique(s: Seq<char>, i: int, j: int)
    requires
        is_dot_split(s, i),
        is_dot_split(s, j),
    ensures
        i == j,
{
    if i < j {
        assert(s.skip(i + 1)[j - i - 1] == s[j]);
        assert(is_ascii_digit(s[j]));
    } else if j < i {
        assert(s.skip(j + 1)[i - j - 1] == s[i]);
        assert(is_ascii_digit(s[i]));
    }
}

proof fn lemma_not_wellformed_bad_char(s: Seq<char>, i: int)
    requires
        0 <= i < s.len(),
        !is_ascii_digit(s[i]),
        s[i] != '.',
    ensures
        !wellformed_decimal(s),
{
    assert forall|j: int| !is_dot_split(s, j) by {
        if is_dot_split(s, j) {
            if i < j {
                assert(s.take(j)[i] == s[i]);
            } else if i > j {
                assert(s.skip(j + 1)[i - j - 1] == s[i]);
            }
        }
    }
}

proof fn lemma_not_wellformed_extra_dot(s: Seq<char>, d: int, i: int)
    requires
        0 <= d < i < s.len(),
        s[d] == '.',
        s[i] == '.',
    ensures
        !wellformed_decimal(s),
{
    assert(!is_ascii_digit(s[d]));
    assert forall|j: int| !is_dot_split(s, j) by {
        if is_dot_split(s, j) {
            if j == d {
                assert(s.skip(d + 1)[i - d - 1] == s[i]);
            } else if d < j {
                assert(s.take(j)[d] == s[d]);
            } else {
                assert(s.skip(j + 1)[d - j - 1] == s[d]);
            }
        }
    }
}

/// Parses a plain decimal threshold string to parts per million, rounding
/// down beyond the sixth fraction digit. Returns nothing exactly when the
/// string is not a decimal number between 0 and 1 inclusive.
pub fn parse_threshold_ppm(v: &str) -> (r: Option<u64>)
    ensures
        match r {
            Option::Some(p) => valid_threshold(v@) && p as int == threshold_ppm_spec(v@) && p
                <= 1_000_000,
            Option::None => !valid_threshold(v@),
        },
{
    let ghost s = v@;
    let n = v.unicode_len();
    if n == 0 {
        return Option::None;
    }
    // First pass: find the decimal point and refuse anything that is neither
    // a digit nor a single point.
    let mut dot: Option<usize> = Option::None;
    let mut i: usize = 0;
    while i < n
        invariant
            n == s.len(),
            s == v@,
            i <= n,
            match dot {
                Option::Some(d) => {
                    &&& d < i
                    &&& s[d as int] == '.'
                    &&& all_digits(s.take(d as int))
                    &&& all_digits(s.subrange(d as int + 1, i as int))
                },
                Option::None => all_digits(s.take(i as int)),
            },
        decreases n - i,
    {
        let c = v.get_char(i);
        let u = c as u32;
        if u == 46 {
            assert(c == '.');
            match dot {
                Option::Some(d) => {
                    proof {
                        lemma_not_wellformed_extra_dot(s, d as int, i as int);
                    }
                    return Option::None;
                },
                Option::None => {
                    proof {
                        assert(s.subrange(i as int + 1, i as int + 1) =~= Seq::<char>::empty());
                    }
                    dot = Option::Some(i);
                },
            }
        } else if u < 48 || u > 57 {
            proof {
                lemma_not_wellformed_bad_char(s, i as int);
            }
            return Option::None;
        } else {
            proof {
                assert(is_ascii_digit(s[i as int]));
                assert(s.take(i as int + 1).drop_last() =~= s.take(i as int));
                match dot {
                    Option::Some(d) => {
                        assert(s.subrange(d as int + 1, i as int + 1).drop_last() =~= s.subrange(
                            d as int + 1,
                            i as int,
                        ));
                    },
                    Option::None => {},
                }
            }
        }
        i += 1;
    }
    // The split that the scan found, and what it means for the spec.
    let ghost ip = int_part(s);
    let ghost fp = frac_part(s);
    let dend: usize = match dot {
        Option::Some(d) => {
            if n == 1 {
                // the string is a lone point
                proof {
                    assert(!is_ascii_digit('.')) by {
                        assert('.' as u32 == 46);
                    }
                    assert(!all_digits(s)) by {
                        assert(s[0] == '.');
                    }
                    assert(forall|j: int| !is_dot_split(s, j));
                }
                return Option::None;
            }
            proof {
                assert(s.subrange(d as int + 1, n as int) =~= s.skip(d as int + 1));
                assert(is_dot_split(s, d as int));
                let picked = choose|j: int| is_dot_split(s, j);
                lemma_dot_split_unique(s, picked, d as int);
                assert(ip == s.take(d as int));
                assert(fp == s.skip(d as int + 1));
            }
            d
        },
        Option::None => {
            proof {
                assert(s.take(n as int) =~= s);
                assert(all_digits(s));
                assert(forall|j: int| !is_dot_split(s, j)) by {
                    assert forall|j: int| !is_dot_split(s, j) by {
                        if is_dot_split(s, j) {
                            assert(is_ascii_digit(s[j]));
                            assert(s[j] == '.');
                        }
                    }
                }
                assert(ip == s);
                assert(fp =~= Seq::<char>::empty());
            }
            n
        },
    };
    // Second pass: the value of the integer part, saturating early since any
    // value of two or more is out of range anyway.
    let mut acc: u64 = 0;
    let mut i: usize = 0;
    while i < dend
        invariant
            n == s.len(),
            s == v@,
            dend <= n,
            i <= dend,
            ip.len() == dend,
            forall|k: int| 0 <= k < dend ==> ip[k] == s[k],
            all_digits(ip),
            acc <= 19,
            digits_val(ip.take(i as int)) <= 1 ==> acc == digits_val(ip.take(i as int)),
            digits_val(ip.take(i as int)) >= 2 ==> 2 <= acc,
        decreases dend - i,
    {
        let c = v.get_char(i);
        proof {
            assert(ip[i as int] == s[i as int]);
            assert(is_ascii_digit(ip[i as int]));
            assert(ip.take(i as int + 1).drop_last() =~= ip.take(i as int));
            assert(ip.take(i as int + 1).last() == ip[i as int]);
            lemma_digits_val_nonneg(ip.take(i as int));
        }
        let d = ((c as u32) - 48) as u64;
        if acc < 2 {
            acc = acc * 10 + d;
        }
        i += 1;
    }
    proof {
        assert(ip.take(dend as int) =~= ip);
    }
    if acc >= 2 {
        proof {
            assert(digits_val(ip) >= 2);
        }
        return Option::None;
    }
    // Third pass: the fraction in parts per million — the first six digits
    // — and whether every fraction digit is zero.
    let fstart: usize = if dend < n {
        dend + 1
    } else {
        n
    };
    proof {
        if dend < n {
            assert(fp =~= s.skip(dend as int + 1));
        }
        assert(fp.len() == n - fstart);
        assert(forall|k: int| 0 <= k < fp.len() ==> fp[k] == s[fstart + k]);
        assert(all_digits(fp));
    }
    let mut f: u64 = 0;
    let mut cnt: u64 = 0;
    let mut all_zero = true;
    let mut i: usize = fstart;
    while i < n
        invariant
            n == s.len(),
            s == v@,
            fstart <= i <= n,
            fp.len() == n - fstart,
            forall|k: int| 0 <= k < fp.len() ==> fp[k] == s[fstart + k],
            all_digits(fp),
            cnt == if i - fstart <= 6 {
                (i - fstart) as int
            } else {
                6int
            },
            f as int == digits_val(fp.take(cnt as int)),
            (f as int) < pow10(cnt as int),
            all_zero == all_zeros(fp.take((i - fstart) as int)),
        decreases n - i,
    {
        let c = v.get_char(i);
        proof {
            lemma_pow10_values();
            assert(fp[(i - fstart) as int] == s[i as int]);
            assert(is_ascii_digit(fp[(i - fstart) as int]));
            assert(fp.take((i - fstart) as int + 1).drop_last() =~= fp.take((i - fstart) as int));
            assert(fp.take((i - fstart) as int + 1).last() == fp[(i - fstart) as int]);
        }
        let d = ((c as u32) - 48) as u64;
        if cnt < 6 {
            proof {
                assert(fp.take(cnt as int + 1).drop_last() =~= fp.take(cnt as int));
                assert(fp.take(cnt as int + 1).last() == fp[cnt as int]);
            }
            f = f * 10 + d;
            cnt = cnt + 1;
        }
        if d != 0 {
            all_zero = false;
            proof {
                assert(fp.take((i - fstart) as int + 1).last() != '0') by {
                    assert('0' as u32 == 48);
                }
            }
        }
        i += 1;
    }
    proof {
        assert(fp.take(fp.len() as int) =~= fp);
        lemma_pow10_values();
    }
    // Put the two parts together and check the range.
    if acc == 1 {
        if all_zero {
            proof {
                let padded = Seq::new(
                    6,
                    |k: int|
                        if k < fp.len() {
                            fp[k]
                        } else {
                            '0'
                        },
                );
                assert(all_zeros(padded));
                lemma_digits_val_zeros(padded);
            }
            Option::Some(1_000_000)
        } else {
            Option::None
        }
    } else {
        // the integer part is zero: the fraction digits decide the value
        let rest = pow10_exec(6 - cnt);
        proof {
            lemma_digits_val_nonneg(fp.take(cnt as int));
            assert((f as int) * pow10(6 - cnt as int) < pow10(cnt as int) * pow10(
                6 - cnt as int,
            )) by (nonlinear_arith)
                requires
                    (f as int) < pow10(cnt as int) && f >= 0 && pow10(6 - cnt as int) >= 1,
            ;
            assert(pow10(cnt as int) * pow10(6 - cnt as int) == pow10(6)) by {
                if cnt == 0 {
                    assert(pow10(0int) * pow10(6int) == pow10(6int));
                } else if cnt == 1 {
                    assert(pow10(1int) * pow10(5int) == pow10(6int));
                } else if cnt == 2 {
                    assert(pow10(2int) * pow10(4int) == pow10(6int));
                } else if cnt == 3 {
                    assert(pow10(3int) * pow10(3int) == pow10(6int));
                } else if cnt == 4 {
                    assert(pow10(4int) * pow10(2int) == pow10(6int));
                } else if cnt == 5 {
                    assert(pow10(5int) * pow10(1int) == pow10(6int));
                } else {
                    assert(pow10(6int) * pow10(0int) == pow10(6int));
                }
            }
        }
        let ppm = f * rest;
        proof {
            let padded = Seq::new(
                6,
                |k: int|
                    if k < fp.len() {
                        fp[k]
                    } else {
                        '0'
                    },
            );
            if fp.len() >= 6 {
                assert(cnt == 6);
                assert(padded =~= fp.take(6));
                assert(ppm == f);
            } else {
                assert(cnt == fp.len());
                assert(padded =~= fp + Seq::new((6 - fp.len()) as nat, |k: int| '0'));
                lemma_digits_val_pad_zeros(fp, 6 - fp.len() as int);
                assert(fp.take(cnt as int) =~= fp);
            }
        }
        Option::Some(ppm)
    }
}

/// Checks that a threshold string is a plain decimal number between 0 and 1.
pub fn validate_threshold(v: &str) -> (r: Result<(), String>)
    ensures
        r is Ok <==> valid_threshold(v@),
{
    match parse_threshold_ppm(v) {
        Option::Some(_) => Result::Ok(()),
        Option::None => Result::Err(
            String::from_str("Threshold must be a valid number between 0 and 1 (e.g. 0.75)"),
        ),
    }
}

} // verus!
