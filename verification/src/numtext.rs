//! Decimal text for angles: rendering a millidegree value with two
//! fraction digits for query replies, and parsing a signed decimal
//! angle argument into millidegrees.

use vstd::prelude::*;

verus! {

use crate::MAX_TARGET;
use crate::servo::MAX_POSITION;

/// True of an ASCII decimal digit.
pub open spec fn is_digit(b: u8) -> bool {
    48 <= b <= 57
}

/// Numeric value of a string of ASCII digits, most significant first.
pub open spec fn digits_val(s: Seq<u8>) -> int
    decreases s.len(),
{
    if s.len() == 0 {
        0
    } else {
        digits_val(s.drop_last()) * 10 + (s.last() - 48)
    }
}

/// True when every byte is an ASCII digit.
pub open spec fn all_digits(s: Seq<u8>) -> bool {
    forall|i: int| 0 <= i < s.len() ==> is_digit(#[trigger] s[i])
}

/// A digit string's value is never negative.
pub proof fn lemma_digits_val_nonneg(s: Seq<u8>)
    requires
        all_digits(s),
    ensures
        digits_val(s) >= 0,
    decreases s.len(),
{
    if s.len() > 0 {
        lemma_digits_val_nonneg(s.drop_last());
        assert(digits_val(s.drop_last()) * 10 >= 0) by (nonlinear_arith)
            requires
                digits_val(s.drop_last()) >= 0,
        ;
    }
}

/// Decimal rendering of a nonnegative number, without leading zeros
/// (a lone zero for zero).
pub open spec fn dec_spec(n: int) -> Seq<u8>
    decreases n,
{
    if n < 10 {
        seq![(48 + n) as u8]
    } else {
        dec_spec(n / 10).push((48 + n % 10) as u8)
    }
}

/// Render a nonnegative number in decimal.
pub fn dec_digits(n: i64) -> (r: Vec<u8>)
    requires
        0 <= n,
    ensures
        r@ == dec_spec(n as int),
    decreases n,
{
    if n < 10 {
        let mut v: Vec<u8> = Vec::new();
        v.push(48 + n as u8);
        v
    } else {
        let mut v = dec_digits(n / 10);
        v.push(48 + (n % 10) as u8);
        v
    }
}

/// The rendered form of a millidegree angle with exactly two fraction
/// digits: the sign for negative values, the whole degrees, a dot, then
/// hundredths rounded half away from zero.
pub open spec fn fmt_angle_spec(x: int) -> Seq<u8> {
    let mag = (crate::angle::abs_spec(x) + 5) / 10;
    let sign: Seq<u8> = if x < 0 {
        seq![45u8]
    } else {
        Seq::empty()
    };
    sign + dec_spec(mag / 100) + seq![46u8, (48 + (mag / 10) % 10) as u8, (48 + mag % 10) as u8]
}

/// Render a millidegree angle with two fraction digits, as the query
/// reply body shows it.
pub fn format_angle(x: i64) -> (r: Vec<u8>)
    requires
        -MAX_POSITION <= x <= MAX_POSITION,
    ensures
        r@ == fmt_angle_spec(x as int),
{
    let neg = x < 0;
    let magx = if neg {
        -x
    } else {
        x
    };
    let mag = (magx + 5) / 10;
    let mut out: Vec<u8> = Vec::new();
    if neg {
        out.push(45);
    }
    let mut whole = dec_digits(mag / 100);
    out.append(&mut whole);
    out.push(46);
    out.push(48 + ((mag / 10) % 10) as u8);
    out.push(48 + (mag % 10) as u8);
    assert(out@ =~= fmt_angle_spec(x as int));
    out
}

/// Value in millidegrees of the fraction digits: the first three count,
/// shorter runs are scaled up, anything further is truncated.
pub open spec fn frac3_val(s: Seq<u8>) -> int {
    if s.len() >= 3 {
        digits_val(s.take(3))
    } else if s.len() == 2 {
        digits_val(s) * 10
    } else if s.len() == 1 {
        digits_val(s) * 100
    } else {
        0
    }
}

/// The parsed value of an angle argument, if the bytes form a plain
/// signed decimal number (optional sign, digits, optionally a dot and
/// more digits, at least one digit in all) whose magnitude is within
/// the commandable range. Value in millidegrees; fraction digits past
/// the third are truncated.
pub open spec fn parse_angle_spec(s: Seq<u8>) -> Option<int> {
    let neg = s.len() > 0 && s[0] == 45;
    let body = if s.len() > 0 && (s[0] == 45 || s[0] == 43) {
        s.drop_first()
    } else {
        s
    };
    parse_body_spec(body, neg)
}

/// Parse the unsigned part of an angle argument.
pub open spec fn parse_body_spec(body: Seq<u8>, neg: bool) -> Option<int> {
    let dot = first_dot(body);
    let ip = body.take(dot);
    let fp = body.skip(if dot < body.len() {
        dot + 1
    } else {
        dot
    });
    if all_digits(ip) && all_digits(fp) && ip.len() + fp.len() > 0 {
        let mag = digits_val(ip) * 1000 + frac3_val(fp);
        if mag <= MAX_TARGET {
            Some(
                if neg {
                    -mag
                } else {
                    mag
                },
            )
        } else {
            None
        }
    } else {
        None
    }
}

/// Index of the first dot, or the length when there is none.
pub open spec fn first_dot(s: Seq<u8>) -> int
    decreases s.len(),
{
    if s.len() == 0 {
        0
    } else if s[0] == 46 {
        0
    } else {
        1 + first_dot(s.drop_first())
    }
}

/// The first dot lies between zero and the length, everything before it
/// is not a dot, and what it points at (if in range) is a dot.
pub proof fn lemma_first_dot(s: Seq<u8>)
    ensures
        0 <= first_dot(s) <= s.len(),
        forall|i: int| 0 <= i < first_dot(s) ==> s[i] != 46,
        first_dot(s) < s.len() ==> s[first_dot(s)] == 46,
    decreases s.len(),
{
    if s.len() > 0 && s[0] != 46 {
        lemma_first_dot(s.drop_first());
        assert forall|i: int| 0 <= i < first_dot(s) implies s[i] != 46 by {
            if i > 0 {
                assert(s.drop_first()[i - 1] != 46);
            }
        }
    }
}


/// A position before which no dot occurs, and which holds a dot or is
/// the end, is the first dot.
pub proof fn lemma_first_dot_unique(s: Seq<u8>, k: int)
    requires
        0 <= k <= s.len(),
        forall|i: int| 0 <= i < k ==> s[i] != 46,
        k < s.len() ==> s[k] == 46,
    ensures
        first_dot(s) == k,
    decreases s.len(),
{
    if s.len() > 0 && s[0] != 46 {
        assert forall|i: int| 0 <= i < k - 1 implies s.drop_first()[i] != 46 by {
            assert(s[i + 1] != 46);
        }
        lemma_first_dot_unique(s.drop_first(), k - 1);
    }
}

/// Appending a digit multiplies the value by ten and adds the digit.
pub proof fn lemma_digits_val_snoc(p: Seq<u8>, b: u8)
    ensures
        digits_val(p.push(b)) == digits_val(p) * 10 + (b - 48),
{
    assert(p.push(b).drop_last() =~= p);
}

/// Parse an angle argument: an optional sign, then decimal digits with
/// an optional dot, into millidegrees. Returns nothing when the bytes
/// are not such a number or its magnitude is past the commandable
/// range; fraction digits past the third are truncated.
pub fn parse_angle(s: &[u8]) -> (r: Option<i64>)
    ensures
        r is Some <==> parse_angle_spec(s@) is Some,
        r matches Some(x) ==> parse_angle_spec(s@) == Some(x as int),
{
    let n = s.len();
    if n == 0 {
        return None;
    }
    let mut i: usize = 0;
    let mut neg = false;
    if s[0] == 45 || s[0] == 43 {
        neg = s[0] == 45;
        i = 1;
    }
    let ghost body = if s@[0] == 45 || s@[0] == 43 {
        s@.drop_first()
    } else {
        s@
    };
    let start = i;
    assert(body =~= s@.skip(start as int));
    let mut ipval: i64 = 0;
    let mut over = false;
    while i < n && s[i] != 46 && 48 <= s[i] && s[i] <= 57
        invariant
            start <= i <= n,
            n == s.len(),
            body == s@.skip(start as int),
            all_digits(body.take(i - start)),
            !over ==> 0 <= ipval <= 4_000_009 && ipval == digits_val(body.take(i - start)),
            over ==> digits_val(body.take(i - start)) > 400_000,
        decreases n - i,
    {
        proof {
            assert(body.take(i - start + 1) =~= body.take(i - start).push(s@[i as int]));
            lemma_digits_val_snoc(body.take(i - start), s@[i as int]);
            if over {
                lemma_digits_val_nonneg(body.take(i - start));
            }
        }
        if !over {
            if ipval > 400_000 {
                over = true;
                proof {
                    lemma_digits_val_nonneg(body.take(i - start));
                }
            } else {
                ipval = ipval * 10 + (s[i] - 48) as i64;
            }
        }
        i = i + 1;
    }
    let ip_len = i - start;
    if i < n && s[i] != 46 {
        // a byte that is neither digit nor dot: the number is malformed
        proof {
            lemma_first_dot(body);
            let dot = first_dot(body);
            assert(body[i - start] == s@[i as int]);
            if dot < i - start {
                assert(is_digit(body.take(i - start)[dot]));
                assert(false);
            } else if dot == i - start {
                assert(body[dot] == 46);
                assert(false);
            }
            assert(body.take(dot)[i - start] == body[i - start]);
            assert(!all_digits(body.take(dot)));
        }
        return None;
    }
    proof {
        assert forall|j: int| 0 <= j < ip_len implies body[j] != 46 by {
            assert(is_digit(body.take(ip_len as int)[j]));
        }
        lemma_first_dot_unique(body, ip_len as int);
    }
    let ghost ip = body.take(ip_len as int);
    let mut fval: i64 = 0;
    let mut fcount: usize = 0;
    let ghost fstart: int = if (ip_len as int) < body.len() {
        ip_len + 1
    } else {
        ip_len as int
    };
    let ghost fp = body.skip(fstart);
    if i < n {
        // skip the dot and read fraction digits
        i = i + 1;
        assert(fp =~= s@.skip(i as int));
        let fbase = i;
        while i < n
            invariant
                fbase <= i <= n,
                n == s.len(),
                body == s@.skip(start as int),
                body == if s@.len() > 0 && (s@[0] == 45 || s@[0] == 43) {
                    s@.drop_first()
                } else {
                    s@
                },
                fp == s@.skip(fbase as int),
                fp == body.skip(fstart),
                ip == body.take(ip_len as int),
                first_dot(body) == ip_len as int,
                fstart == if (ip_len as int) < body.len() {
                    ip_len + 1 as int
                } else {
                    ip_len as int
                },
                all_digits(ip),
                !over ==> 0 <= ipval <= 4_000_009 && ipval == digits_val(ip),
                over ==> digits_val(ip) > 400_000,
                all_digits(fp.take(i - fbase)),
                fcount == i - fbase,
                fcount >= 3 ==> fval == digits_val(fp.take(3)) && 0 <= fval <= 999,
                fcount == 2 ==> fval == digits_val(fp.take(2)) && 0 <= fval <= 99,
                fcount == 1 ==> fval == digits_val(fp.take(1)) && 0 <= fval <= 9,
                fcount == 0 ==> fval == 0,
            decreases n - i,
        {
            if s[i] < 48 || s[i] > 57 {
                proof {
                    assert(fp[(i - fbase) as int] == s@[i as int]);
                    assert(!all_digits(fp)) by {
                        if all_digits(fp) {
                            assert(is_digit(fp[(i - fbase) as int]));
                        }
                    }
                }
                return None;
            }
            proof {
                assert(fp.take(i - fbase + 1) =~= fp.take(i - fbase).push(s@[i as int]));
                lemma_digits_val_snoc(fp.take(i - fbase), s@[i as int]);
            }
            if fcount < 3 {
                fval = fval * 10 + (s[i] - 48) as i64;
            }
            fcount = fcount + 1;
            i = i + 1;
        }
        proof {
            assert(fp =~= fp.take(fp.len() as int));
        }
    } else {
        assert(fp =~= Seq::<u8>::empty());
    }
    if ip_len == 0 && fcount == 0 {
        return None;
    }
    // scale short fraction runs up to millidegrees
    let f3 = if fcount == 0 {
        0
    } else if fcount == 1 {
        fval * 100
    } else if fcount == 2 {
        fval * 10
    } else {
        fval
    };
    proof {
        assert(f3 == frac3_val(fp));
        if over {
            assert(digits_val(ip) * 1000 > 400_000_000) by (nonlinear_arith)
                requires
                    digits_val(ip) > 400_000,
            ;
        }
    }
    if over {
        return None;
    }
    let mag = ipval * 1000 + f3;
    if mag > MAX_TARGET {
        return None;
    }
    if neg {
        Some(-mag)
    } else {
        Some(mag)
    }
}


/// A parsed angle is always within the commandable range.
pub proof fn lemma_parse_angle_bounds(s: Seq<u8>)
    ensures
        parse_angle_spec(s) matches Some(v) ==> -MAX_TARGET <= v <= MAX_TARGET,
{
    let body = if s.len() > 0 && (s[0] == 45 || s[0] == 43) {
        s.drop_first()
    } else {
        s
    };
    let dot = first_dot(body);
    let ip = body.take(dot);
    let fp = body.skip(
        if dot < body.len() {
            dot + 1
        } else {
            dot
        },
    );
    if all_digits(ip) && all_digits(fp) && ip.len() + fp.len() > 0 {
        lemma_digits_val_nonneg(ip);
        assert(digits_val(ip) * 1000 >= 0) by (nonlinear_arith)
            requires
                digits_val(ip) >= 0,
        ;
        if fp.len() >= 3 {
            assert(all_digits(fp.take(3))) by {
                assert(forall|i: int| 0 <= i < 3 ==> fp.take(3)[i] == fp[i]);
            }
            lemma_digits_val_nonneg(fp.take(3));
        } else {
            lemma_digits_val_nonneg(fp);
            assert(digits_val(fp) * 10 >= 0 && digits_val(fp) * 100 >= 0) by (nonlinear_arith)
                requires
                    digits_val(fp) >= 0,
            ;
        }
    }
}

} // verus!
