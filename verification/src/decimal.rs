//! Parsing decimal chart fields into fixed-point integers.
//!
//! Chart numbers are decimal text like `-123.456`.  They are held as `i64`
//! thousandths (so millisecond fields become microseconds), truncated toward
//! zero after the third fraction digit.  A field that is not of the form
//! `-? digits (. digits)?` with at least one digit, or whose magnitude
//! exceeds [`MAX_ABS_SCALED`], does not parse, and the caller falls back to
//! its documented default.

use vstd::prelude::*;

verus! {

/// Largest magnitude a parsed fixed-point value may have (one billion,
/// scaled); it keeps every later product inside `i128`.
pub const MAX_ABS_SCALED: i64 = 1_000_000_000_000;

pub open spec fn is_digit(b: u8) -> bool {
    48 <= b <= 57
}

pub open spec fn all_digits(s: Seq<u8>) -> bool {
    forall|i: int| 0 <= i < s.len() ==> is_digit(#[trigger] s[i])
}

/// The number the digit string denotes.
pub open spec fn digits_val(s: Seq<u8>) -> int
    decreases s.len(),
{
    if s.len() == 0 {
        0
    } else {
        digits_val(s.drop_last()) * 10 + (s.last() - 48)
    }
}

pub proof fn lemma_digits_val_nonneg(s: Seq<u8>)
    requires
        all_digits(s),
    ensures
        digits_val(s) >= 0,
    decreases s.len(),
{
    if s.len() > 0 {
        assert(is_digit(s.last()));
        assert(all_digits(s.drop_last()));
        lemma_digits_val_nonneg(s.drop_last());
    }
}

/// More digits never shrink the value.
pub proof fn lemma_digits_prefix_le(s: Seq<u8>, i: int)
    requires
        all_digits(s),
        0 <= i <= s.len(),
    ensures
        digits_val(s.take(i)) <= digits_val(s),
    decreases s.len(),
{
    if i == s.len() {
        assert(s.take(i) =~= s);
    } else {
        assert(all_digits(s.drop_last()));
        assert(s.take(i) =~= s.drop_last().take(i));
        lemma_digits_prefix_le(s.drop_last(), i);
        assert(is_digit(s.last()));
        lemma_digits_val_nonneg(s.drop_last());
    }
}

/// Index of the first `.` at or after `i`, or the length if there is none.
pub open spec fn first_dot_from(s: Seq<u8>, i: int) -> int
    decreases s.len() - i,
{
    if i < 0 || i >= s.len() {
        s.len() as int
    } else if s[i] == 46 {
        i
    } else {
        first_dot_from(s, i + 1)
    }
}

/// The first three fraction digits as thousandths.
pub open spec fn frac3_val(fp: Seq<u8>) -> int {
    if fp.len() == 0 {
        0
    } else if fp.len() == 1 {
        digits_val(fp) * 100
    } else if fp.len() == 2 {
        digits_val(fp) * 10
    } else {
        digits_val(fp.take(3))
    }
}

/// What `parse_decimal` returns on a byte string.
pub open spec fn parse_decimal_spec(s: Seq<u8>) -> Option<i64> {
    if s.len() == 0 {
        None
    } else {
        let neg = s[0] == 45;
        let t = if neg {
            s.skip(1)
        } else {
            s
        };
        let d = first_dot_from(t, 0);
        let ip = t.take(d);
        let fp = if d < t.len() {
            t.skip(d + 1)
        } else {
            Seq::<u8>::empty()
        };
        if !all_digits(ip) || !all_digits(fp) || ip.len() + fp.len() == 0 {
            None
        } else {
            let scaled = digits_val(ip) * 1000 + frac3_val(fp);
            if scaled > MAX_ABS_SCALED {
                None
            } else if neg {
                Some((-scaled) as i64)
            } else {
                Some(scaled as i64)
            }
        }
    }
}

/// Parse a decimal field into thousandths, truncated toward zero.
pub fn parse_decimal(s: &[u8]) -> (r: Option<i64>)
    ensures
        r == parse_decimal_spec(s@),
{
    let n = s.len();
    if n == 0 {
        return None;
    }
    let neg = s[0] == 45;
    let start: usize = if neg {
        1
    } else {
        0
    };
    let ghost t: Seq<u8> = if neg {
        s@.skip(1)
    } else {
        s@
    };
    proof {
        assert(t.len() == n - start);
        assert(forall|k: int| 0 <= k < t.len() ==> t[k] == s@[k + start]);
    }
    let mut i: usize = start;
    let mut acc: i64 = 0;
    while i < n && s[i] != 46
        invariant
            start <= i <= n,
            n == s@.len(),
            neg == (s@[0] == 45),
            start == if neg {
                1int
            } else {
                0int
            },
            t == if neg {
                s@.skip(1)
            } else {
                s@
            },
            t.len() == n - start,
            forall|k: int| 0 <= k < t.len() ==> t[k] == s@[k + start],
            first_dot_from(t, 0) == first_dot_from(t, i - start),
            all_digits(t.take(i - start)),
            acc == digits_val(t.take(i - start)),
            0 <= acc <= 1_000_000_000,
        decreases n - i,
    {
        let b = s[i];
        proof {
            assert(t[i - start] == b);
            lemma_first_dot_range(t, i - start);
        }
        if b < 48 || b > 57 {
            // `b` is neither a digit nor the dot, so the integer part of the
            // spec's split holds a non-digit.
            proof {
                let d = first_dot_from(t, 0);
                assert(d > i - start) by {
                    assert(first_dot_from(t, i - start) == first_dot_from(t, i - start + 1));
                    lemma_first_dot_range(t, i - start + 1);
                }
                assert(t.take(d)[i - start] == b);
                assert(!all_digits(t.take(d)));
            }
            return None;
        }
        proof {
            assert(first_dot_from(t, i - start) == first_dot_from(t, i - start + 1));
            assert(t.take(i - start + 1).drop_last() =~= t.take(i - start));
            assert(t.take(i - start + 1).last() == b);
        }
        acc = acc * 10 + (b - 48) as i64;
        i = i + 1;
        if acc > 1_000_000_000 {
            // Whatever follows, the spec value is out of range or malformed.
            proof {
                let d = first_dot_from(t, 0);
                let ip = t.take(d);
                let fp = if d < t.len() {
                    t.skip(d + 1)
                } else {
                    Seq::<u8>::empty()
                };
                lemma_first_dot_lower(t, i - start);
                if all_digits(ip) && all_digits(fp) && ip.len() + fp.len() > 0 {
                    assert(t.take(i - start) =~= ip.take(i - start));
                    lemma_digits_prefix_le(ip, i - start);
                    lemma_frac3_nonneg(fp);
                }
            }
            return None;
        }
    }
    let ghost d = first_dot_from(t, 0);
    proof {
        lemma_first_dot_range(t, i - start);
        if i < n {
            assert(t[i - start] == s@[i as int]);
        }
        assert(d == i - start);
        assert(t.take(d) =~= t.take(i - start));
    }
    let mut facc: i64 = 0;
    let mut nf: usize = 0;
    if i < n {
        // s[i] is the dot; scan the fraction digits.
        let mut j: usize = i + 1;
        while j < n
            invariant
                i + 1 <= j <= n,
                n == s@.len(),
                neg == (s@[0] == 45),
                start == if neg {
                    1int
                } else {
                    0int
                },
                t == if neg {
                    s@.skip(1)
                } else {
                    s@
                },
                t.len() == n - start,
                forall|k: int| 0 <= k < t.len() ==> t[k] == s@[k + start],
                d == i - start,
                d == first_dot_from(t, 0),
                start <= i < n,
                d < t.len(),
                nf == j - i - 1,
                all_digits(t.skip(d + 1).take(nf as int)),
                facc == digits_val(t.skip(d + 1).take(if nf <= 3 {
                    nf as int
                } else {
                    3
                })),
                0 <= facc,
                nf == 0 ==> facc == 0,
                nf == 1 ==> facc <= 9,
                nf == 2 ==> facc <= 99,
                nf >= 3 ==> facc <= 999,
            decreases n - j,
        {
            let b = s[j];
            proof {
                assert(t.skip(d + 1).len() == t.len() - d - 1);
                assert(t.skip(d + 1)[j - i - 1] == b);
            }
            if b < 48 || b > 57 {
                proof {
                    assert(!is_digit(t.skip(d + 1)[j - i - 1]));
                    assert(!all_digits(t.skip(d + 1)));
                }
                return None;
            }
            proof {
                let fp0 = t.skip(d + 1);
                assert(fp0.take(nf as int + 1).drop_last() =~= fp0.take(nf as int));
                assert(fp0.take(nf as int + 1).last() == b);
                if nf < 3 {
                    assert(fp0.take(if nf + 1 <= 3 {
                        nf as int + 1
                    } else {
                        3
                    }) =~= fp0.take(nf as int + 1));
                } else {
                    assert(fp0.take(if nf + 1 <= 3 {
                        nf as int + 1
                    } else {
                        3
                    }) =~= fp0.take(3));
                }
            }
            if nf < 3 {
                facc = facc * 10 + (b - 48) as i64;
            }
            nf = nf + 1;
            j = j + 1;
        }
    }
    let ghost fp = if d < t.len() {
        t.skip(d + 1)
    } else {
        Seq::<u8>::empty()
    };
    proof {
        if d < t.len() {
            assert(fp.len() == nf);
            assert(fp.take(nf as int) =~= fp);
            if nf >= 3 {
                assert(fp.take(if nf <= 3 {
                    nf as int
                } else {
                    3
                }) =~= fp.take(3));
            }
        } else {
            assert(nf == 0);
        }
        assert(all_digits(fp));
    }
    let ni = i - start;
    if ni == 0 && nf == 0 {
        return None;
    }
    let frac3: i64 = if nf == 0 {
        0
    } else if nf == 1 {
        facc * 100
    } else if nf == 2 {
        facc * 10
    } else {
        facc
    };
    proof {
        assert(frac3 == frac3_val(fp));
        assert(0 <= frac3 <= 999);
    }
    let scaled = acc * 1000 + frac3;
    if scaled > MAX_ABS_SCALED {
        return None;
    }
    if neg {
        Some(-scaled)
    } else {
        Some(scaled)
    }
}

/// What `parse_i32` returns on a byte string.
pub open spec fn parse_i32_spec(s: Seq<u8>) -> Option<i32> {
    if s.len() == 0 {
        None
    } else {
        let neg = s[0] == 45;
        let t = if neg {
            s.skip(1)
        } else {
            s
        };
        if !all_digits(t) || t.len() == 0 {
            None
        } else {
            let v = if neg {
                -digits_val(t)
            } else {
                digits_val(t)
            };
            if v < -2147483648 || v > 2147483647 {
                None
            } else {
                Some(v as i32)
            }
        }
    }
}

/// Parse a plain integer field, as the object-type flags are written.
pub fn parse_i32(s: &[u8]) -> (r: Option<i32>)
    ensures
        r == parse_i32_spec(s@),
{
    let n = s.len();
    if n == 0 {
        return None;
    }
    let neg = s[0] == 45;
    let start: usize = if neg {
        1
    } else {
        0
    };
    let ghost t: Seq<u8> = if neg {
        s@.skip(1)
    } else {
        s@
    };
    proof {
        assert(t.len() == n - start);
        assert(forall|k: int| 0 <= k < t.len() ==> t[k] == s@[k + start]);
    }
    if n == start {
        return None;
    }
    let mut i: usize = start;
    let mut acc: i64 = 0;
    while i < n
        invariant
            start <= i <= n,
            n == s@.len(),
            n > start,
            neg == (s@[0] == 45),
            start == if neg {
                1int
            } else {
                0int
            },
            t == if neg {
                s@.skip(1)
            } else {
                s@
            },
            t.len() == n - start,
            forall|k: int| 0 <= k < t.len() ==> t[k] == s@[k + start],
            all_digits(t.take(i - start)),
            acc == digits_val(t.take(i - start)),
            0 <= acc <= 2_147_483_648,
        decreases n - i,
    {
        let b = s[i];
        proof {
            assert(t[i - start] == b);
        }
        if b < 48 || b > 57 {
            proof {
                assert(!is_digit(t[i - start]));
            }
            return None;
        }
        proof {
            assert(t.take(i - start + 1).drop_last() =~= t.take(i - start));
            assert(t.take(i - start + 1).last() == b);
        }
        acc = acc * 10 + (b - 48) as i64;
        i = i + 1;
        if acc > 2_147_483_648 {
            proof {
                if all_digits(t) {
                    assert(t.take(i - start) =~= t.take(t.len() as int).take(i - start));
                    assert(t.take(t.len() as int) =~= t);
                    lemma_digits_prefix_le(t, i - start);
                }
            }
            return None;
        }
    }
    proof {
        assert(t.take(i - start) =~= t);
    }
    if neg {
        if acc > 2_147_483_648 {
            return None;
        }
        Some((-acc) as i32)
    } else {
        if acc > 2_147_483_647 {
            return None;
        }
        Some(acc as i32)
    }
}

/// Whatever parses is inside the fixed-point range.
pub proof fn lemma_parse_decimal_bounds(s: Seq<u8>)
    ensures
        parse_decimal_spec(s) matches Some(v) ==> -MAX_ABS_SCALED <= v <= MAX_ABS_SCALED,
{
    if s.len() > 0 {
        let neg = s[0] == 45;
        let t = if neg {
            s.skip(1)
        } else {
            s
        };
        let d = first_dot_from(t, 0);
        let ip = t.take(d);
        let fp = if d < t.len() {
            t.skip(d + 1)
        } else {
            Seq::<u8>::empty()
        };
        if all_digits(ip) && all_digits(fp) && ip.len() + fp.len() > 0 {
            lemma_digits_val_nonneg(ip);
            lemma_frac3_nonneg(fp);
        }
    }
}

pub proof fn lemma_frac3_nonneg(fp: Seq<u8>)
    requires
        all_digits(fp),
    ensures
        frac3_val(fp) >= 0,
{
    lemma_digits_val_nonneg(fp);
    if fp.len() >= 3 {
        assert(all_digits(fp.take(3)));
        lemma_digits_val_nonneg(fp.take(3));
    }
}

/// If no dot was seen up to `j`, the first dot lies at or after `j`.
pub proof fn lemma_first_dot_lower(t: Seq<u8>, j: int)
    requires
        0 <= j <= t.len(),
        first_dot_from(t, 0) == first_dot_from(t, j),
    ensures
        first_dot_from(t, 0) >= j,
    decreases t.len() - j,
{
    lemma_first_dot_range(t, j);
}

/// The first-dot index always lies between its start and the length.
pub proof fn lemma_first_dot_range(t: Seq<u8>, j: int)
    requires
        0 <= j <= t.len(),
    ensures
        j <= first_dot_from(t, j) <= t.len(),
    decreases t.len() - j,
{
    if j < t.len() && t[j] != 46 {
        lemma_first_dot_range(t, j + 1);
    }
}

} // verus!
