//! Character-level string helpers shared by the other modules.

use vstd::prelude::*;
use vstd::string::*;

verus! {

/// Code point of `c`, with ASCII capitals mapped to their lower-case letters.
pub open spec fn ascii_folded(c: char) -> u32 {
    let x = c as u32;
    if 65 <= x && x <= 90 {
        (x + 32) as u32
    } else {
        x
    }
}

/// `a` and `b` have the same length and agree character by character once ASCII
/// letters are compared without regard to case.
pub open spec fn spec_eq_ignore_ascii_case(a: Seq<char>, b: Seq<char>) -> bool {
    &&& a.len() == b.len()
    &&& forall|i: int| 0 <= i < a.len() ==> #[trigger] ascii_folded(a[i]) == ascii_folded(b[i])
}

pub fn fold_ascii(c: char) -> (r: u32)
    ensures
        r == ascii_folded(c),
{
    let x = c as u32;
    if 65 <= x && x <= 90 {
        x + 32
    } else {
        x
    }
}

/// Compares two strings ignoring the case of ASCII letters.
pub fn eq_ignore_ascii_case(a: &str, b: &str) -> (r: bool)
    ensures
        r == spec_eq_ignore_ascii_case(a@, b@),
{
    let n = a.unicode_len();
    let m = b.unicode_len();
    if n != m {
        return false;
    }
    let mut i: usize = 0;
    while i < n
        invariant
            n == a@.len(),
            m == b@.len(),
            n == m,
            i <= n,
            forall|k: int| 0 <= k < i ==> #[trigger] ascii_folded(a@[k]) == ascii_folded(b@[k]),
        decreases n - i,
    {
        let x = fold_ascii(a.get_char(i));
        let y = fold_ascii(b.get_char(i));
        if x != y {
            return false;
        }
        i = i + 1;
    }
    true
}

/// Exact equality of two strings.
pub fn str_eq(a: &str, b: &str) -> (r: bool)
    ensures
        r == (a@ == b@),
{
    let n = a.unicode_len();
    let m = b.unicode_len();
    if n != m {
        return false;
    }
    let mut i: usize = 0;
    while i < n
        invariant
            n == a@.len(),
            m == b@.len(),
            n == m,
            i <= n,
            forall|k: int| 0 <= k < i ==> a@[k] == b@[k],
        decreases n - i,
    {
        if a.get_char(i) != b.get_char(i) {
            return false;
        }
        i = i + 1;
    }
    assert(a@ =~= b@);
    true
}


/// `str::to_lowercase` of `s` (Unicode rules: mostly each character's
/// lowercase mapping, with a capital sigma at the end of a word lowered to the
/// final form `ς`).
pub uninterp spec fn unicode_lowercase(s: Seq<char>) -> Seq<char>;

/// `str::to_uppercase` of `s` (Unicode rules).
pub uninterp spec fn unicode_uppercase(s: Seq<char>) -> Seq<char>;


/// Calls `str::to_lowercase`; the result is named, fixed by `s` alone.
#[verifier::external_body]
pub(crate) fn to_lowercase(s: &str) -> (r: String)
    ensures
        r@ == unicode_lowercase(s@),
{
    s.to_lowercase()
}

/// Calls `str::to_uppercase`; the result is named, fixed by `s` alone.
#[verifier::external_body]
pub(crate) fn to_uppercase(s: &str) -> (r: String)
    ensures
        r@ == unicode_uppercase(s@),
{
    s.to_uppercase()
}

// ── Trimming ─────────────────────────────────────────────────────────────────

/// Unicode white space (the `White_Space` property, as `char::is_whitespace`
/// and `str::trim` read it).
pub open spec fn is_unicode_space(c: char) -> bool {
    let u = c as u32;
    ||| 0x09 <= u <= 0x0D
    ||| u == 0x20
    ||| u == 0x85
    ||| u == 0xA0
    ||| u == 0x1680
    ||| 0x2000 <= u <= 0x200A
    ||| u == 0x2028
    ||| u == 0x2029
    ||| u == 0x202F
    ||| u == 0x205F
    ||| u == 0x3000
}

/// `s` without its leading white space.
pub open spec fn strip_front(s: Seq<char>) -> Seq<char>
    decreases s.len(),
{
    if s.len() > 0 && is_unicode_space(s[0]) {
        strip_front(s.drop_first())
    } else {
        s
    }
}

/// `s` without its trailing white space.
pub open spec fn strip_back(s: Seq<char>) -> Seq<char>
    decreases s.len(),
{
    if s.len() > 0 && is_unicode_space(s.last()) {
        strip_back(s.drop_last())
    } else {
        s
    }
}

/// `s` without leading and trailing Unicode white space, as `str::trim` leaves it.
pub open spec fn unicode_trimmed(s: Seq<char>) -> Seq<char> {
    strip_back(strip_front(s))
}

fn is_space_char(c: char) -> (b: bool)
    ensures
        b == is_unicode_space(c),
{
    let u = c as u32;
    (0x09 <= u && u <= 0x0D) || u == 0x20 || u == 0x85 || u == 0xA0 || u == 0x1680 || (0x2000 <= u
        && u <= 0x200A) || u == 0x2028 || u == 0x2029 || u == 0x202F || u == 0x205F || u == 0x3000
}

proof fn lemma_strip_front_skips(s: Seq<char>, i: int)
    requires
        0 <= i <= s.len(),
        forall|k: int| 0 <= k < i ==> is_unicode_space(#[trigger] s[k]),
    ensures
        strip_front(s) == strip_front(s.subrange(i, s.len() as int)),
    decreases i,
{
    if i == 0 {
        assert(s.subrange(0, s.len() as int) =~= s);
    } else {
        let t = s.drop_first();
        assert forall|k: int| 0 <= k < i - 1 implies is_unicode_space(#[trigger] t[k]) by {
            assert(t[k] == s[k + 1]);
        }
        lemma_strip_front_skips(t, i - 1);
        assert(t.subrange(i - 1, t.len() as int) =~= s.subrange(i, s.len() as int));
    }
}

proof fn lemma_strip_back_skips(s: Seq<char>, j: int)
    requires
        0 <= j <= s.len(),
        forall|k: int| j <= k < s.len() ==> is_unicode_space(#[trigger] s[k]),
    ensures
        strip_back(s) == strip_back(s.subrange(0, j)),
    decreases s.len() - j,
{
    if j == s.len() {
        assert(s.subrange(0, j) =~= s);
    } else {
        let t = s.drop_last();
        assert forall|k: int| j <= k < t.len() implies is_unicode_space(#[trigger] t[k]) by {
            assert(t[k] == s[k]);
        }
        lemma_strip_back_skips(t, j);
        assert(t.subrange(0, j) =~= s.subrange(0, j));
    }
}

/// `s` without leading and trailing Unicode white space (`str::trim`).
pub(crate) fn trim(s: &str) -> (r: &str)
    ensures
        r@ == unicode_trimmed(s@),
{
    let n = s.unicode_len();
    let mut a: usize = 0;
    while a < n && is_space_char(s.get_char(a))
        invariant
            a <= n,
            n == s@.len(),
            forall|k: int| 0 <= k < a ==> is_unicode_space(#[trigger] s@[k]),
        decreases n - a,
    {
        a = a + 1;
    }
    let ghost t = s@.subrange(a as int, n as int);
    proof {
        lemma_strip_front_skips(s@, a as int);
        if a < n {
            assert(t[0] == s@[a as int]);
        }
        assert(strip_front(t) == t);
    }
    let mut b: usize = n;
    while b > a && is_space_char(s.get_char(b - 1))
        invariant
            a <= b <= n,
            n == s@.len(),
            t == s@.subrange(a as int, n as int),
            forall|k: int| b - a <= k < t.len() ==> is_unicode_space(#[trigger] t[k]),
        decreases b - a,
    {
        proof {
            assert(t[b - 1 - a] == s@[b - 1]);
        }
        b = b - 1;
    }
    proof {
        lemma_strip_back_skips(t, (b - a) as int);
        let u = t.subrange(0, (b - a) as int);
        if b > a {
            assert(u.last() == s@[b - 1]);
        }
        assert(strip_back(u) == u);
        assert(u =~= s@.subrange(a as int, b as int));
    }
    s.substring_char(a, b)
}

// ── Decimal numbers ──────────────────────────────────────────────────────────

pub open spec fn is_digit(c: char) -> bool {
    '0' <= c && c <= '9'
}

pub open spec fn digit_value(c: char) -> int {
    (c as u32) - ('0' as u32)
}

pub open spec fn all_digits(ds: Seq<char>) -> bool {
    forall|i: int| 0 <= i < ds.len() ==> #[trigger] is_digit(ds[i])
}

/// Value of a string of decimal digits, most significant first.
pub open spec fn digits_value(ds: Seq<char>) -> int
    decreases ds.len(),
{
    if ds.len() == 0 {
        0
    } else {
        10 * digits_value(ds.drop_last()) + digit_value(ds.last())
    }
}

/// What Rust's `from_str` accepts for an integer: an optional `+` (or, when
/// `signed`, `-`), then at least one ASCII digit; the value before range checks.
pub open spec fn spec_parse_integer(s: Seq<char>, signed: bool) -> Option<int> {
    let neg = s.len() > 0 && s[0] == '-' && signed;
    let plus = s.len() > 0 && s[0] == '+';
    let ds = if neg || plus {
        s.drop_first()
    } else {
        s
    };
    if ds.len() == 0 || !all_digits(ds) {
        None
    } else if neg {
        Some(-digits_value(ds))
    } else {
        Some(digits_value(ds))
    }
}

/// `s.parse::<i64>()`: `Some` exactly when `s` reads as an integer within `i64`.
pub open spec fn spec_parse_i64(s: Seq<char>) -> Option<i64> {
    match spec_parse_integer(s, true) {
        Some(v) => if i64::MIN <= v <= i64::MAX {
            Some(v as i64)
        } else {
            None
        },
        None => None,
    }
}

/// `s.parse::<u64>()`: `Some` exactly when `s` reads as an integer within `u64`.
pub open spec fn spec_parse_u64(s: Seq<char>) -> Option<u64> {
    match spec_parse_integer(s, false) {
        Some(v) => if 0 <= v <= u64::MAX {
            Some(v as u64)
        } else {
            None
        },
        None => None,
    }
}

proof fn lemma_digits_value_nonneg(ds: Seq<char>)
    requires
        all_digits(ds),
    ensures
        digits_value(ds) >= 0,
    decreases ds.len(),
{
    if ds.len() > 0 {
        assert(all_digits(ds.drop_last()));
        lemma_digits_value_nonneg(ds.drop_last());
        assert(is_digit(ds[ds.len() - 1]));
    }
}

/// A longer digit string is worth at least as much as its prefix.
proof fn lemma_digits_value_grows(ds: Seq<char>, k: int)
    requires
        all_digits(ds),
        0 <= k <= ds.len(),
    ensures
        digits_value(ds) >= digits_value(ds.take(k)),
    decreases ds.len(),
{
    if k < ds.len() {
        assert(all_digits(ds.drop_last()));
        lemma_digits_value_grows(ds.drop_last(), k);
        assert(ds.drop_last().take(k) =~= ds.take(k));
        lemma_digits_value_nonneg(ds.drop_last());
        assert(is_digit(ds[ds.len() - 1]));
    } else {
        assert(ds.take(k) =~= ds);
    }
}

/// Reads the digits of `s` from `start` on; `None` when a non-digit occurs, when
/// there is no digit, or as soon as the value exceeds `limit`.
fn read_digits(s: &str, start: usize, limit: u64) -> (r: Option<u64>)
    requires
        start <= s@.len(),
    ensures
        ({
            let ds = s@.subrange(start as int, s@.len() as int);
            match r {
                Some(v) => ds.len() > 0 && all_digits(ds) && v == digits_value(ds) && v <= limit,
                None => ds.len() == 0 || !all_digits(ds) || digits_value(ds) > limit,
            }
        }),
{
    let n = s.unicode_len();
    let ghost ds = s@.subrange(start as int, s@.len() as int);
    if start == n {
        return None;
    }
    let mut acc: u64 = 0;
    let mut i: usize = start;
    while i < n
        invariant
            n == s@.len(),
            start <= i <= n,
            ds == s@.subrange(start as int, s@.len() as int),
            all_digits(ds.take(i - start)),
            acc == digits_value(ds.take(i - start)),
            acc <= limit,
        decreases n - i,
    {
        let c = s.get_char(i);
        proof {
            assert(ds[i - start] == c);
        }
        if !('0' <= c && c <= '9') {
            proof {
                assert(!is_digit(ds[i - start]));
            }
            return None;
        }
        let d: u64 = (c as u32 - '0' as u32) as u64;
        proof {
            let t = ds.take(i - start + 1);
            assert(t.drop_last() =~= ds.take(i - start));
            assert(t.last() == c);
            assert forall|k: int| 0 <= k < t.len() implies #[trigger] is_digit(t[k]) by {
                if k < t.len() - 1 {
                    assert(t[k] == ds.take(i - start)[k]);
                }
            }
        }
        let next: u128 = acc as u128 * 10 + d as u128;
        if next > limit as u128 {
            proof {
                let t = ds.take(i - start + 1);
                if all_digits(ds) {
                    lemma_digits_value_grows(ds, i - start + 1);
                }
            }
            return None;
        }
        acc = next as u64;
        i = i + 1;
    }
    proof {
        assert(ds.take(n - start) =~= ds);
    }
    Some(acc)
}


/// `s.parse::<u64>()`.
pub fn parse_u64(s: &str) -> (r: Option<u64>)
    ensures
        r == spec_parse_u64(s@),
{
    let n = s.unicode_len();
    let start: usize = if n > 0 && s.get_char(0) == '+' {
        1
    } else {
        0
    };
    proof {
        if start == 1 {
            assert(s@.drop_first() =~= s@.subrange(1, s@.len() as int));
        } else {
            assert(s@ =~= s@.subrange(0, s@.len() as int));
        }
    }
    read_digits(s, start, u64::MAX)
}

/// `s.parse::<i64>()`.
pub fn parse_i64(s: &str) -> (r: Option<i64>)
    ensures
        r == spec_parse_i64(s@),
{
    let n = s.unicode_len();
    let first = if n > 0 {
        Some(s.get_char(0))
    } else {
        None
    };
    let neg = first == Some('-');
    let start: usize = if neg || first == Some('+') {
        1
    } else {
        0
    };
    proof {
        if start == 1 {
            assert(s@.drop_first() =~= s@.subrange(1, s@.len() as int));
        } else {
            assert(s@ =~= s@.subrange(0, s@.len() as int));
        }
    }
    let limit: u64 = if neg {
        0x8000_0000_0000_0000
    } else {
        0x7fff_ffff_ffff_ffff
    };
    match read_digits(s, start, limit) {
        Some(v) => {
            if neg {
                if v == 0x8000_0000_0000_0000 {
                    Some(i64::MIN)
                } else {
                    Some(-(v as i64))
                }
            } else {
                Some(v as i64)
            }
        },
        None => None,
    }
}

/// The decimal digits of `n`, most significant first, without sign or leading zeros.
pub open spec fn spec_digits(n: nat) -> Seq<char>
    decreases n,
{
    if n < 10 {
        seq![(('0' as u32) + n) as char]
    } else {
        spec_digits(n / 10) + seq![(('0' as u32) + n % 10) as char]
    }
}

/// `n.to_string()` for a signed integer.
pub open spec fn spec_decimal(n: int) -> Seq<char> {
    if n < 0 {
        seq!['-'] + spec_digits((-n) as nat)
    } else {
        spec_digits(n as nat)
    }
}

fn digit_str(d: u64) -> (s: &'static str)
    requires
        d < 10,
    ensures
        s@ == seq![(('0' as u32) + d) as char],
{
    proof {
        reveal_strlit("0");
        reveal_strlit("1");
        reveal_strlit("2");
        reveal_strlit("3");
        reveal_strlit("4");
        reveal_strlit("5");
        reveal_strlit("6");
        reveal_strlit("7");
        reveal_strlit("8");
        reveal_strlit("9");
    }
    if d == 0 {
        "0"
    } else if d == 1 {
        "1"
    } else if d == 2 {
        "2"
    } else if d == 3 {
        "3"
    } else if d == 4 {
        "4"
    } else if d == 5 {
        "5"
    } else if d == 6 {
        "6"
    } else if d == 7 {
        "7"
    } else if d == 8 {
        "8"
    } else {
        "9"
    }
}

fn append_digits(out: &mut String, n: u64)
    ensures
        final(out)@ == old(out)@ + spec_digits(n as nat),
    decreases n,
{
    if n >= 10 {
        append_digits(out, n / 10);
    }
    out.append(digit_str(n % 10));
    proof {
        if n >= 10 {
            assert(old(out)@ + spec_digits((n / 10) as nat) + seq![(('0' as u32) + n % 10) as char]
                =~= old(out)@ + spec_digits(n as nat));
        } else {
            assert(n % 10 == n);
        }
    }
}

/// Appends the decimal form of `n`, as `format!("{}", n)` writes it.
pub fn append_decimal(out: &mut String, n: i64)
    ensures
        final(out)@ == old(out)@ + spec_decimal(n as int),
{
    if n < 0 {
        proof {
            reveal_strlit("-");
        }
        out.append("-");
        let m: u64 = (-(n as i128)) as u64;
        append_digits(out, m);
        proof {
            assert(old(out)@ + seq!['-'] + spec_digits(m as nat) =~= old(out)@ + spec_decimal(
                n as int,
            ));
        }
    } else {
        append_digits(out, n as u64);
    }
}

} // verus!
