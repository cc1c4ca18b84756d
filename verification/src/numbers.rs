use vstd::prelude::*;

verus! {

/// An ASCII decimal digit.
pub open spec fn is_digit(c: char) -> bool {
    '0' as u32 <= c as u32 <= '9' as u32
}

pub open spec fn digit_value(c: char) -> int {
    c as u32 - '0' as u32
}

pub open spec fn all_digits(s: Seq<char>) -> bool {
    forall|i: int| 0 <= i < s.len() ==> is_digit(#[trigger] s[i])
}

/// The value of a run of decimal digits, most significant first.
pub open spec fn digits_value(s: Seq<char>) -> int
    decreases s.len(),
{
    if s.len() == 0 {
        0
    } else {
        digits_value(s.drop_last()) * 10 + digit_value(s.last())
    }
}

/// The integer that `FromStr` reads from `s`, before the range check: an optional sign
/// (`-` only where `signed`), then one or more ASCII digits.
pub open spec fn decimal_value(s: Seq<char>, signed: bool) -> Option<int> {
    if s.len() > 0 && s[0] == '-' && signed {
        let d = s.drop_first();
        if d.len() > 0 && all_digits(d) {
            Some(-digits_value(d))
        } else {
            None
        }
    } else if s.len() > 0 && s[0] == '+' {
        let d = s.drop_first();
        if d.len() > 0 && all_digits(d) {
            Some(digits_value(d))
        } else {
            None
        }
    } else if s.len() > 0 && all_digits(s) {
        Some(digits_value(s))
    } else {
        None
    }
}

/// `FromStr` for an integer type whose range is `lo..=hi`: the value when it reads and
/// fits, `None` otherwise.
pub open spec fn parse_in_range(s: Seq<char>, signed: bool, lo: int, hi: int) -> Option<int> {
    match decimal_value(s, signed) {
        Some(v) => if lo <= v <= hi {
            Some(v)
        } else {
            None
        },
        None => None,
    }
}

/// `str::parse::<i32>().ok()`.
pub open spec fn parse_i32(s: Seq<char>) -> Option<int> {
    parse_in_range(s, true, i32::MIN as int, i32::MAX as int)
}

/// `str::parse::<i64>().ok()`.
pub open spec fn parse_i64(s: Seq<char>) -> Option<int> {
    parse_in_range(s, true, i64::MIN as int, i64::MAX as int)
}

/// `str::parse::<u32>().ok()`.
pub open spec fn parse_u32(s: Seq<char>) -> Option<int> {
    parse_in_range(s, false, 0, u32::MAX as int)
}

/// `str::parse::<u64>().ok()`.
pub open spec fn parse_u64(s: Seq<char>) -> Option<int> {
    parse_in_range(s, false, 0, u64::MAX as int)
}

proof fn lemma_digits_value_nonneg(s: Seq<char>)
    requires
        all_digits(s),
    ensures
        digits_value(s) >= 0,
    decreases s.len(),
{
    if s.len() > 0 {
        lemma_digits_value_nonneg(s.drop_last());
    }
}

/// Appending digits never lowers the value.
proof fn lemma_digits_value_prefix(s: Seq<char>, k: int)
    requires
        all_digits(s),
        0 <= k <= s.len(),
    ensures
        digits_value(s.take(k)) <= digits_value(s),
    decreases s.len() - k,
{
    if k < s.len() {
        assert(s.drop_last().take(k) =~= s.take(k));
        lemma_digits_value_prefix(s.drop_last(), k);
        lemma_digits_value_nonneg(s.drop_last());
    } else {
        assert(s.take(k) =~= s);
    }
}

/// Reads the digits `s[from..]` and returns their value when it is at most `bound`.
fn digits_upto(s: &[char], from: usize, bound: u128) -> (r: Option<u128>)
    requires
        from <= s@.len(),
        bound <= u128::MAX / 16,
    ensures
        match r {
            Some(v) => all_digits(s@.skip(from as int)) && v == digits_value(s@.skip(from as int))
                && v <= bound,
            None => !all_digits(s@.skip(from as int)) || digits_value(s@.skip(from as int))
                > bound,
        },
{
    let ghost d = s@.skip(from as int);
    let mut v: u128 = 0;
    let mut i = from;
    while i < s.len()
        invariant
            from <= i <= s@.len(),
            d == s@.skip(from as int),
            bound <= u128::MAX / 16,
            all_digits(d.take(i - from)),
            v == digits_value(d.take(i - from)),
            v <= bound,
        decreases s.len() - i,
    {
        let c = s[i];
        let n = c as u32;
        if !(48 <= n && n <= 57) {
            proof {
                assert(!is_digit(d[i - from]));
            }
            return None;
        }
        let dv = (n - 48) as u128;
        proof {
            assert(d.take(i - from + 1).drop_last() =~= d.take(i - from));
            assert(d.take(i - from + 1).last() == c);
        }
        let nv = v * 10 + dv;
        if nv > bound {
            proof {
                assert(all_digits(d.take(i - from + 1)));
                if all_digits(d) {
                    lemma_digits_value_prefix(d, i - from + 1);
                }
            }
            return None;
        }
        v = nv;
        i += 1;
    }
    proof {
        assert(d.take(i - from) =~= d);
    }
    Some(v)
}

/// `FromStr` for integers in `lo..=hi`, as `parse_in_range` states it.
fn parse_decimal(s: &[char], signed: bool, lo: i128, hi: i128) -> (r: Option<i128>)
    requires
        hi >= 0,
        lo <= 0,
        hi <= u64::MAX,
        lo >= i64::MIN,
    ensures
        match r {
            Some(v) => parse_in_range(s@, signed, lo as int, hi as int) == Some(v as int),
            None => parse_in_range(s@, signed, lo as int, hi as int).is_none(),
        },
{
    if s.len() == 0 {
        return None;
    }
    if s[0] == '-' && signed {
        if s.len() == 1 {
            return None;
        }
        let bound = (0 - lo) as u128;
        match digits_upto(s, 1, bound) {
            Some(v) => {
                assert(s@.skip(1) =~= s@.drop_first());
                Some(0 - v as i128)
            },
            None => {
                assert(s@.skip(1) =~= s@.drop_first());
                None
            },
        }
    } else if s[0] == '+' {
        if s.len() == 1 {
            return None;
        }
        match digits_upto(s, 1, hi as u128) {
            Some(v) => {
                assert(s@.skip(1) =~= s@.drop_first());
                proof {
                    lemma_digits_value_nonneg(s@.drop_first());
                }
                Some(v as i128)
            },
            None => {
                assert(s@.skip(1) =~= s@.drop_first());
                None
            },
        }
    } else {
        match digits_upto(s, 0, hi as u128) {
            Some(v) => {
                assert(s@.skip(0) =~= s@);
                proof {
                    lemma_digits_value_nonneg(s@);
                }
                Some(v as i128)
            },
            None => {
                assert(s@.skip(0) =~= s@);
                proof {
                    if all_digits(s@) {
                        lemma_digits_value_nonneg(s@);
                    }
                }
                None
            },
        }
    }
}

/// `str::parse::<i32>().ok()` on a character sequence.
pub fn parse_i32_chars(s: &[char]) -> (r: Option<i32>)
    ensures
        match r {
            Some(v) => parse_i32(s@) == Some(v as int),
            None => parse_i32(s@).is_none(),
        },
{
    match parse_decimal(s, true, i32::MIN as i128, i32::MAX as i128) {
        Some(v) => Some(v as i32),
        None => None,
    }
}

/// `str::parse::<u32>().ok()` on a character sequence.
pub fn parse_u32_chars(s: &[char]) -> (r: Option<u32>)
    ensures
        match r {
            Some(v) => parse_u32(s@) == Some(v as int),
            None => parse_u32(s@).is_none(),
        },
{
    match parse_decimal(s, false, 0, u32::MAX as i128) {
        Some(v) => Some(v as u32),
        None => None,
    }
}

/// `str::parse::<i64>().ok()` on a character sequence.
pub fn parse_i64_chars(s: &[char]) -> (r: Option<i64>)
    ensures
        match r {
            Some(v) => parse_i64(s@) == Some(v as int),
            None => parse_i64(s@).is_none(),
        },
{
    match parse_decimal(s, true, i64::MIN as i128, i64::MAX as i128) {
        Some(v) => Some(v as i64),
        None => None,
    }
}

/// `str::parse::<u64>().ok()` on a character sequence.
pub fn parse_u64_chars(s: &[char]) -> (r: Option<u64>)
    ensures
        match r {
            Some(v) => parse_u64(s@) == Some(v as int),
            None => parse_u64(s@).is_none(),
        },
{
    match parse_decimal(s, false, 0, u64::MAX as i128) {
        Some(v) => Some(v as u64),
        None => None,
    }
}

/// The decimal digit character of `d < 10`.
pub open spec fn digit_char(d: int) -> char {
    (d + 48) as char
}

/// `Display` of an unsigned integer: decimal digits, no leading zeros.
pub open spec fn decimal(n: nat) -> Seq<char>
    decreases n,
{
    if n < 10 {
        seq![digit_char(n as int)]
    } else {
        decimal(n / 10).push(digit_char((n % 10) as int))
    }
}

/// `u32::to_string`, as characters.
pub fn u32_decimal(n: u32) -> (r: Vec<char>)
    ensures
        r@ == decimal(n as nat),
{
    let mut digits: Vec<char> = Vec::new();
    let mut m = n;
    // digits@ holds the decimal of n % 10^k reversed; track via a ghost suffix.
    let ghost mut suffix: Seq<char> = Seq::empty();
    assert(decimal(n as nat) =~= decimal(m as nat) + suffix);
    loop
        invariant_except_break
            decimal(n as nat) == decimal(m as nat) + suffix,
        invariant
            digits@ == suffix.reverse(),
        ensures
            decimal(n as nat) == suffix,
        decreases m,
    {
        let d = m % 10;
        let ch = ((d as u8) + 48) as char;
        proof {
            assert(ch == digit_char(d as int));
        }
        digits.push(ch);
        proof {
            let old_suffix = suffix;
            suffix = seq![ch] + suffix;
            assert(suffix.reverse() =~= old_suffix.reverse().push(ch));
            if m >= 10 {
                assert(decimal(m as nat) == decimal((m / 10) as nat).push(ch));
                assert(decimal(m as nat) + old_suffix =~= decimal((m / 10) as nat) + suffix);
            } else {
                assert(decimal(m as nat) =~= seq![ch]);
                assert(decimal(m as nat) + old_suffix =~= suffix);
            }
        }
        m = m / 10;
        if m == 0 {
            break;
        }
    }
    let mut r: Vec<char> = Vec::new();
    let mut k = digits.len();
    while k > 0
        invariant
            k <= digits@.len(),
            digits@ == suffix.reverse(),
            r@ == suffix.take(digits@.len() - k),
        decreases k,
    {
        r.push(digits[k - 1]);
        proof {
            assert(r@ =~= suffix.take(digits@.len() - k + 1));
        }
        k -= 1;
    }
    proof {
        assert(suffix.take(digits@.len() as int) =~= suffix);
    }
    r
}

} // verus!
