//! Plain decimal numbers of the training files, read exactly into
//! integer thousandths: an optional sign, digits, and an optional
//! fraction of which the first three digits count.

use vstd::prelude::*;

verus! {

pub open spec fn is_digit(c: char) -> bool {
    '0' <= c <= '9'
}

pub open spec fn digit_val(c: char) -> int {
    c as int - 48
}

pub open spec fn all_digits(s: Seq<char>) -> bool {
    forall|i: int| 0 <= i < s.len() ==> is_digit(#[trigger] s[i])
}

/// The number a digit sequence denotes, most significant digit first.
pub open spec fn dec_value(s: Seq<char>) -> int
    decreases s.len(),
{
    if s.len() == 0 {
        0
    } else {
        10 * dec_value(s.drop_last()) + digit_val(s.last())
    }
}

pub open spec fn pow10(n: nat) -> int
    decreases n,
{
    if n == 0 {
        1
    } else {
        10 * pow10((n - 1) as nat)
    }
}

/// A digit sequence denotes a number below ten to its length.
pub proof fn lemma_dec_value_bound(s: Seq<char>)
    requires
        all_digits(s),
    ensures
        0 <= dec_value(s) < pow10(s.len()),
    decreases s.len(),
{
    if s.len() > 0 {
        assert(all_digits(s.drop_last()));
        lemma_dec_value_bound(s.drop_last());
    }
}

pub proof fn lemma_pow10_pos(n: nat)
    ensures
        1 <= pow10(n),
    decreases n,
{
    if n > 0 {
        lemma_pow10_pos((n - 1) as nat);
    }
}

/// Ten to a larger power is larger.
pub proof fn lemma_pow10_increases(a: nat, b: nat)
    requires
        a <= b,
    ensures
        pow10(a) <= pow10(b),
    decreases b - a,
{
    if a < b {
        lemma_pow10_increases(a, (b - 1) as nat);
        assert(1 <= pow10(a)) by {
            lemma_pow10_pos(a);
        }
    }
}

/// Position of the first occurrence of `c` in `s`, if any.
pub open spec fn spec_find_char(s: Seq<char>, c: char) -> Option<int>
    decreases s.len(),
{
    if s.len() == 0 {
        None
    } else if s.first() == c {
        Some(0int)
    } else {
        match spec_find_char(s.drop_first(), c) {
            Some(i) => Some(i + 1),
            None => None,
        }
    }
}

/// What `spec_find_char` finds: the first occurrence when one exists,
/// nothing when the character is absent.
pub proof fn lemma_find_char_characterization(s: Seq<char>, c: char)
    ensures
        spec_find_char(s, c) is None ==> forall|j: int| 0 <= j < s.len() ==> #[trigger] s[j] != c,
        spec_find_char(s, c) matches Some(k) ==> 0 <= k < s.len() && s[k] == c && forall|j: int|
            0 <= j < k ==> #[trigger] s[j] != c,
    decreases s.len(),
{
    if s.len() > 0 && s.first() != c {
        lemma_find_char_characterization(s.drop_first(), c);
        assert(forall|j: int| 1 <= j < s.len() ==> #[trigger] s[j] == s.drop_first()[j - 1]);
    }
}

/// The thousandths the first up-to-three fraction digits denote.
pub open spec fn frac_milli(s: Seq<char>) -> int {
    if s.len() >= 3 {
        dec_value(s.take(3))
    } else if s.len() == 2 {
        dec_value(s) * 10
    } else if s.len() == 1 {
        dec_value(s) * 100
    } else {
        0
    }
}

/// The thousandths a decimal text denotes: an optional leading minus,
/// an integer part of at most fifteen digits, and an optional point
/// followed by fraction digits of which the first three count. Nothing
/// on any other shape.
pub open spec fn spec_decimal_milli(s: Seq<char>) -> Option<int> {
    let neg = s.len() > 0 && s[0] == '-';
    let body = if neg {
        s.skip(1)
    } else {
        s
    };
    let sign: int = if neg {
        -1
    } else {
        1
    };
    match spec_find_char(body, '.') {
        None => if all_digits(body) && 1 <= body.len() <= 15 {
            Some(sign * (dec_value(body) * 1000))
        } else {
            None
        },
        Some(k) => {
            let ip = body.take(k);
            let fp = body.skip(k + 1);
            if all_digits(ip) && all_digits(fp) && ip.len() <= 15 && ip.len() + fp.len() >= 1 {
                Some(sign * (dec_value(ip) * 1000 + frac_milli(fp)))
            } else {
                None
            }
        },
    }
}

/// Value of the digit character `c`.
fn digit_of(c: char) -> (r: Option<u64>)
    ensures
        r is Some <==> is_digit(c),
        r matches Some(d) ==> d == digit_val(c),
{
    if c >= '0' && c <= '9' {
        Some((c as u32 - 48) as u64)
    } else {
        None
    }
}

/// The number the digits `from .. to` of `s` denote, or nothing when a
/// character there is no digit.
#[verifier::loop_isolation(false)]
fn digits_value(s: &str, from: usize, to: usize) -> (r: Option<u64>)
    requires
        from <= to <= s@.len(),
        to - from <= 15,
    ensures
        r is Some <==> all_digits(s@.subrange(from as int, to as int)),
        r matches Some(v) ==> v == dec_value(s@.subrange(from as int, to as int)) && v < pow10(
            (to - from) as nat,
        ),
{
    proof {
        assert(pow10(15) == 1_000_000_000_000_000) by {
            reveal_with_fuel(pow10, 16);
        }
    }
    let mut acc: u64 = 0;
    for i in from..to
        invariant
            all_digits(s@.subrange(from as int, i as int)),
            acc == dec_value(s@.subrange(from as int, i as int)),
            acc < pow10((i - from) as nat),
        decreases to - i,
    {
        proof {
            let sub = s@.subrange(from as int, i + 1);
            assert(sub.drop_last() =~= s@.subrange(from as int, i as int));
            assert(sub.last() == s@[i as int]);
            lemma_pow10_increases(((i + 1) - from) as nat, 15);
        }
        let c = s.get_char(i);
        match digit_of(c) {
            Some(d) => {
                acc = acc * 10 + d;
                proof {
                    let sub = s@.subrange(from as int, i + 1);
                    assert(acc == dec_value(sub));
                    lemma_dec_value_bound(sub);
                }
            },
            None => {
                proof {
                    let sub = s@.subrange(from as int, to as int);
                    assert(sub[i - from] == s@[i as int]);
                }
                return None;
            },
        }
    }
    Some(acc)
}

/// The thousandths the fraction digits `from .. to` of `s` denote, or
/// nothing when a character there is no digit.
#[verifier::loop_isolation(false)]
fn fraction_milli_value(s: &str, from: usize, to: usize) -> (r: Option<u64>)
    requires
        from <= to <= s@.len(),
    ensures
        r is Some <==> all_digits(s@.subrange(from as int, to as int)),
        r matches Some(v) ==> v == frac_milli(s@.subrange(from as int, to as int)) && v <= 999,
{
    proof {
        assert(pow10(3) == 1000 && pow10(2) == 100 && pow10(1) == 10) by {
            reveal_with_fuel(pow10, 4);
        }
    }
    let ghost sub = s@.subrange(from as int, to as int);
    let len = to - from;
    let head_to = if len >= 3 {
        from + 3
    } else {
        to
    };
    let head = digits_value(s, from, head_to);
    proof {
        if len >= 3 {
            assert(s@.subrange(from as int, head_to as int) =~= sub.take(3));
        } else {
            assert(s@.subrange(from as int, head_to as int) =~= sub);
        }
    }
    let head_val = match head {
        Some(v) => v,
        None => {
            proof {
                if len >= 3 {
                    let j = choose|j: int| 0 <= j < 3 && !is_digit(#[trigger] sub.take(3)[j]);
                    assert(sub[j] == sub.take(3)[j]);
                }
            }
            return None;
        },
    };
    let mut tail_ok = true;
    for i in head_to..to
        invariant
            from <= head_to <= i <= to <= s@.len(),
            sub == s@.subrange(from as int, to as int),
            tail_ok <==> forall|j: int| head_to <= j < i ==> is_digit(#[trigger] s@[j]),
        decreases to - i,
    {
        let c = s.get_char(i);
        if !(c >= '0' && c <= '9') {
            tail_ok = false;
        }
    }
    if !tail_ok {
        proof {
            let j = choose|j: int| head_to <= j < to && !is_digit(#[trigger] s@[j]);
            assert(sub[j - from] == s@[j]);
        }
        return None;
    }
    proof {
        assert forall|j: int| 0 <= j < sub.len() implies is_digit(#[trigger] sub[j]) by {
            assert(sub[j] == s@[from + j]);
            if from + j < head_to {
                assert(s@.subrange(from as int, head_to as int)[j] == sub[j]);
            }
        }
    }
    if len >= 3 {
        Some(head_val)
    } else if len == 2 {
        Some(head_val * 10)
    } else if len == 1 {
        Some(head_val * 100)
    } else {
        Some(0)
    }
}

/// The thousandths a decimal text denotes, or nothing when it is not a
/// plain decimal number.
#[verifier::loop_isolation(false)]
#[verifier::rlimit(100)]
pub fn parse_decimal_milli(s: &str) -> (r: Option<i64>)
    ensures
        r is Some <==> spec_decimal_milli(s@) is Some,
        r matches Some(v) ==> Some(v as int) == spec_decimal_milli(s@),
{
    let n = s.unicode_len();
    let neg = n > 0 && s.get_char(0) == '-';
    let start: usize = if neg {
        1
    } else {
        0
    };
    let ghost body = if neg {
        s@.skip(1)
    } else {
        s@
    };
    proof {
        assert(body =~= s@.subrange(start as int, n as int));
        lemma_find_char_characterization(body, '.');
        assert(pow10(15) == 1_000_000_000_000_000) by {
            reveal_with_fuel(pow10, 16);
        }
    }

    let mut dot: Option<usize> = None;
    for i in start..n
        invariant
            dot is None ==> forall|j: int| start <= j < i ==> #[trigger] s@[j] != '.',
            dot matches Some(k) ==> start <= k < i && s@[k as int] == '.' && forall|j: int|
                start <= j < k ==> #[trigger] s@[j] != '.',
        decreases n - i,
    {
        if dot.is_none() && s.get_char(i) == '.' {
            dot = Some(i);
        }
    }
    proof {
        match spec_find_char(body, '.') {
            Some(k) => {
                assert(body[k] == s@[start + k]);
                assert(dot matches Some(d) && d == start + k) by {
                    match dot {
                        Some(d) => {
                            if (d - start) < k {
                                assert(body[d - start] == s@[d as int]);
                            }
                            if k < (d - start) {
                                assert(body[k] == s@[start + k]);
                            }
                        },
                        None => {
                            assert(s@[start + k] != '.');
                        },
                    }
                }
            },
            None => {
                assert(forall|j: int| 0 <= j < body.len() ==> #[trigger] body[j] != '.');
                assert(dot matches Some(d) ==> body[d - start] == '.');
                assert(dot is None);
            },
        }
    }

    match dot {
        None => {
            if n - start < 1 || n - start > 15 {
                proof {
                    assert(body.len() == n - start);
                }
                return None;
            }
            let v = digits_value(s, start, n);
            proof {
                assert(s@.subrange(start as int, n as int) =~= body);
            }
            match v {
                Some(value) => {
                    proof {
                        lemma_pow10_increases((n - start) as nat, 15);
                        assert(spec_find_char(body, '.') is None);
                        assert(value == dec_value(body));
                        assert(all_digits(body) && 1 <= body.len() <= 15);
                        assert(spec_decimal_milli(s@) == Some(
                            (if neg {
                                -1int
                            } else {
                                1int
                            }) * (dec_value(body) * 1000),
                        ));
                    }
                    let milli = value as i64 * 1000;
                    let result = if neg {
                        -milli
                    } else {
                        milli
                    };
                    proof {
                        let x = dec_value(body) * 1000;
                        if neg {
                            assert((-1int) * x == -x) by (nonlinear_arith);
                        } else {
                            assert((1int) * x == x) by (nonlinear_arith);
                        }
                        assert(Some(result as int) == spec_decimal_milli(s@));
                    }
                    Some(result)
                },
                None => None,
            }
        },
        Some(d) => {
            let ghost k = d - start;
            proof {
                assert(spec_find_char(body, '.') == Some(k));
            }
            if d - start > 15 {
                proof {
                    assert(body.take(k).len() == k);
                }
                return None;
            }
            if n - start < 2 {
                // the text is just a point, possibly signed
                proof {
                    assert(body.take(k).len() + body.skip(k + 1).len() == body.len() - 1);
                }
                return None;
            }
            let ip = digits_value(s, start, d);
            let fp = fraction_milli_value(s, d + 1, n);
            proof {
                assert(s@.subrange(start as int, d as int) =~= body.take(k));
                assert(s@.subrange(d + 1, n as int) =~= body.skip(k + 1));
            }
            match (ip, fp) {
                (Some(int_part), Some(frac)) => {
                    proof {
                        lemma_pow10_increases((d - start) as nat, 15);
                        assert(int_part == dec_value(body.take(k)));
                        assert(frac == frac_milli(body.skip(k + 1)));
                        assert(all_digits(body.take(k)) && all_digits(body.skip(k + 1)));
                        assert(body.take(k).len() + body.skip(k + 1).len() == body.len() - 1 >= 1);
                        assert(spec_decimal_milli(s@) == Some(
                            (if neg {
                                -1int
                            } else {
                                1int
                            }) * (dec_value(body.take(k)) * 1000 + frac_milli(body.skip(k + 1))),
                        ));
                    }
                    let milli = int_part as i64 * 1000 + frac as i64;
                    let result = if neg {
                        -milli
                    } else {
                        milli
                    };
                    proof {
                        let x = dec_value(body.take(k)) * 1000 + frac_milli(body.skip(k + 1));
                        if neg {
                            assert((-1int) * x == -x) by (nonlinear_arith);
                        } else {
                            assert((1int) * x == x) by (nonlinear_arith);
                        }
                        assert(Some(result as int) == spec_decimal_milli(s@));
                    }
                    Some(result)
                },
                _ => None,
            }
        },
    }
}

} // verus!
