//! Parsing of the optional time-to-live argument: a string of decimal
//! digits, with one optional leading `+`, read as a number of whole
//! seconds.  Anything else — an empty string, a stray character, a
//! value beyond `u64::MAX` — is rejected.

use vstd::prelude::*;

verus! {

/// `c` is a decimal digit.
pub open spec fn is_digit(c: char) -> bool {
    48 <= c as int <= 57
}

/// The numeric value of the digit `c`.
pub open spec fn digit_val(c: char) -> int {
    c as int - 48
}

/// Every character of `s` is a decimal digit.
pub open spec fn all_digits(s: Seq<char>) -> bool {
    forall|i: int| 0 <= i < s.len() ==> is_digit(#[trigger] s[i])
}

/// The number written by the digit string `s`, most significant digit
/// first.
pub open spec fn digits_val(s: Seq<char>) -> int
    decreases s.len(),
{
    if s.len() == 0 {
        0
    } else {
        digits_val(s.drop_last()) * 10 + digit_val(s.last())
    }
}

/// The number of seconds that the string `s` names: the value of its
/// digits, behind one optional leading `+`, provided there is at least
/// one digit, nothing else, and the value fits in a `u64`.
pub open spec fn spec_parse_secs(s: Seq<char>) -> Option<u64> {
    let body = if s.len() > 0 && s[0] == '+' {
        s.drop_first()
    } else {
        s
    };
    if body.len() > 0 && all_digits(body) && digits_val(body) <= u64::MAX {
        Some(digits_val(body) as u64)
    } else {
        None
    }
}

proof fn lemma_digits_val_nonneg(s: Seq<char>)
    requires
        all_digits(s),
    ensures
        digits_val(s) >= 0,
    decreases s.len(),
{
    if s.len() > 0 {
        assert(all_digits(s.drop_last()));
        lemma_digits_val_nonneg(s.drop_last());
    }
}

proof fn lemma_digits_val_prefix(s: Seq<char>, m: int)
    requires
        all_digits(s),
        0 <= m <= s.len(),
    ensures
        digits_val(s.take(m)) <= digits_val(s),
    decreases s.len() - m,
{
    if m < s.len() {
        assert(s.take(m + 1).drop_last() =~= s.take(m));
        assert(s.take(m + 1).last() == s[m]);
        assert(all_digits(s.take(m)));
        lemma_digits_val_nonneg(s.take(m));
        assert(digits_val(s.take(m)) <= digits_val(s.take(m + 1)));
        lemma_digits_val_prefix(s, m + 1);
    } else {
        assert(s.take(m) =~= s);
    }
}

/// Reads the digits of `t` that start at position `start` as a `u64`.
fn parse_digits(t: &str, start: usize) -> (r: Option<u64>)
    requires
        0 <= start <= t@.len(),
    ensures
        ({
            let body = t@.subrange(start as int, t@.len() as int);
            r == if body.len() > 0 && all_digits(body) && digits_val(body) <= u64::MAX {
                Some(digits_val(body) as u64)
            } else {
                None::<u64>
            }
        }),
{
    let ghost body = t@.subrange(start as int, t@.len() as int);
    let n = t.unicode_len();
    if start == n {
        return None;
    }
    let mut acc: u64 = 0;
    let mut i: usize = start;
    while i < n
        invariant
            start <= i <= n,
            n == t@.len(),
            body == t@.subrange(start as int, n as int),
            all_digits(body.take(i - start)),
            acc == digits_val(body.take(i - start)),
        decreases n - i,
    {
        let c = t.get_char(i);
        assert(body[i - start] == t@[i as int]);
        let code = c as u32;
        if code < 48 || code > 57 {
            assert(!is_digit(body[i - start]));
            assert(!all_digits(body));
            return None;
        }
        let d: u64 = (code - 48) as u64;
        assert(d as int == digit_val(body[i - start]));
        let ghost k = i - start;
        assert(body.take(k + 1).drop_last() =~= body.take(k as int));
        assert(body.take(k + 1).last() == body[k]);
        let next = match acc.checked_mul(10) {
            Some(x) => x.checked_add(d),
            None => None,
        };
        match next {
            Some(x) => {
                acc = x;
            },
            None => {
                proof {
                    lemma_digits_val_nonneg(body.take(k as int));
                    assert(digits_val(body.take(k + 1)) > u64::MAX);
                    if all_digits(body) {
                        lemma_digits_val_prefix(body, k + 1);
                    }
                }
                return None;
            },
        }
        i = i + 1;
    }
    assert(body.take(n - start) =~= body);
    Some(acc)
}

/// Parses the optional time-to-live token into a number of whole
/// seconds: present and numeric gives its value, anything else gives
/// nothing.
pub fn parse_to_duration(s: Option<&str>) -> (r: Option<u64>)
    ensures
        r == match s {
            Some(t) => spec_parse_secs(t@),
            None => None::<u64>,
        },
{
    let t = match s {
        Some(t) => t,
        None => {
            return None;
        },
    };
    let n = t.unicode_len();
    let start: usize = if n > 0 && t.get_char(0) == '+' {
        1
    } else {
        0
    };
    let r = parse_digits(t, start);
    proof {
        if start == 1 {
            assert(t@.subrange(1, t@.len() as int) =~= t@.drop_first());
        } else {
            assert(t@.subrange(0, t@.len() as int) =~= t@);
        }
    }
    r
}

} // verus!
