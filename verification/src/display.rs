//! Text shaping for the terminal dashboard: compact close times, timeframe
//! ranks and thousands separators.

use vstd::prelude::*;
use vstd::string::*;
use vstd::utf8::*;

use crate::text::{parse_i64, spec_parse_i64, to_lowercase, trim, unicode_lowercase, unicode_trimmed};

verus! {

// ── Close times ──────────────────────────────────────────────────────────────

/// The first sixteen bytes of a close time (`2026-02-28 01:15:00+00` becomes
/// `2026-02-28 01:15`); shorter text is kept whole.
pub open spec fn spec_compact_close_time(s: Seq<char>) -> Seq<char> {
    if encode_utf8(s).len() >= 16 {
        decode_utf8(encode_utf8(s).subrange(0, 16))
    } else {
        s
    }
}

/// Cutting after sixteen bytes must not split a character.
pub open spec fn close_time_cuttable(s: Seq<char>) -> bool {
    encode_utf8(s).len() >= 16 ==> is_char_boundary(encode_utf8(s), 16)
}

pub fn format_close_time_compact(s: &str) -> (r: String)
    requires
        close_time_cuttable(s@),
    ensures
        r@ == spec_compact_close_time(s@),
        encode_utf8(s@).len() >= 16 ==> encode_utf8(r@) == encode_utf8(s@).subrange(0, 16),
{
    if s.as_bytes().len() >= 16 {
        let (head, _tail) = s.split_at(16);
        let r = head.to_owned();
        proof {
            encode_utf8_decode_utf8(r@);
        }
        r
    } else {
        s.to_owned()
    }
}

// ── Timeframe ranks ──────────────────────────────────────────────────────────

/// The rank used to order timeframes: minutes for `Nm`, `Nh` and `Nd` (after
/// trimming and lower-casing), `i64::MAX / 2` for anything else. Products that
/// leave `i64` wrap around.
pub open spec fn spec_timeframe_rank(tf: Seq<char>) -> i64 {
    let t = unicode_lowercase(unicode_trimmed(tf));
    let n = spec_parse_i64(t.drop_last());
    if t.len() > 0 && t.last() == 'm' && n is Some {
        n.unwrap()
    } else if t.len() > 0 && t.last() == 'h' && n is Some {
        n.unwrap().wrapping_mul(60)
    } else if t.len() > 0 && t.last() == 'd' && n is Some {
        n.unwrap().wrapping_mul(24).wrapping_mul(60)
    } else {
        (i64::MAX / 2) as i64
    }
}

pub fn timeframe_rank_minutes(tf: &str) -> (r: i64)
    ensures
        r == spec_timeframe_rank(tf@),
{
    let lowered = to_lowercase(trim(tf));
    let t = lowered.as_str();
    let n = t.unicode_len();
    if n > 0 {
        let last = t.get_char(n - 1);
        let head = t.substring_char(0, n - 1);
        proof {
            assert(head@ =~= t@.drop_last());
        }
        let parsed = parse_i64(head);
        if let Some(v) = parsed {
            if last == 'm' {
                return v;
            } else if last == 'h' {
                return v.wrapping_mul(60);
            } else if last == 'd' {
                return v.wrapping_mul(24).wrapping_mul(60);
            }
        }
    }
    i64::MAX / 2
}

// ── Thousands separators ─────────────────────────────────────────────────────

/// The first `k` characters of `s`, each preceded by a comma when it is not the
/// first and a multiple of three characters remain from it to the end of `s`.
pub open spec fn grouped_prefix(s: Seq<char>, k: int) -> Seq<char>
    decreases k,
{
    if k <= 0 {
        Seq::empty()
    } else {
        let i = k - 1;
        let sep: Seq<char> = if i > 0 && (s.len() - i) % 3 == 0 {
            seq![',']
        } else {
            Seq::empty()
        };
        grouped_prefix(s, k - 1) + sep + seq![s[i]]
    }
}

/// `s` with a comma between every group of three characters, counted from the right.
pub open spec fn spec_group_thousands(s: Seq<char>) -> Seq<char> {
    grouped_prefix(s, s.len() as int)
}

/// `k` is the position of the first `.` in `s`.
pub open spec fn is_first_dot(s: Seq<char>, k: int) -> bool {
    &&& 0 <= k < s.len()
    &&& s[k] == '.'
    &&& forall|j: int| 0 <= j < k ==> s[j] != '.'
}

/// A fixed-point price text with its integer part grouped by thousands; a text
/// without a point gets `.00`.
pub open spec fn spec_price_text(s: Seq<char>) -> Seq<char> {
    if exists|k: int| is_first_dot(s, k) {
        let k = choose|k: int| is_first_dot(s, k);
        spec_group_thousands(s.subrange(0, k)) + seq!['.'] + s.subrange(k + 1, s.len() as int)
    } else {
        spec_group_thousands(s) + seq!['.', '0', '0']
    }
}

fn append_grouped(out: &mut String, digits: &str)
    ensures
        final(out)@ == old(out)@ + spec_group_thousands(digits@),
{
    let ghost start = out@;
    let m = digits.unicode_len();
    let mut i: usize = 0;
    while i < m
        invariant
            m == digits@.len(),
            i <= m,
            out@ == start + grouped_prefix(digits@, i as int),
        decreases m - i,
    {
        proof {
            reveal_strlit(",");
        }
        let ghost before = out@;
        let needs_sep = i > 0 && (m - i) % 3 == 0;
        if needs_sep {
            out.append(",");
        }
        out.append(digits.substring_char(i, i + 1));
        proof {
            let sep: Seq<char> = if needs_sep {
                seq![',']
            } else {
                Seq::empty()
            };
            assert(digits@.subrange(i as int, i + 1) =~= seq![digits@[i as int]]);
            assert(out@ =~= before + sep + seq![digits@[i as int]]);
            assert(grouped_prefix(digits@, i + 1) =~= grouped_prefix(digits@, i as int) + sep
                + seq![digits@[i as int]]);
        }
        i = i + 1;
    }
}

/// Formats the output of `format!("{:.2}", p)` with thousands separators:
/// `66524.70` becomes `66,524.70`.
pub fn group_price_text(fixed: &str) -> (r: String)
    ensures
        r@ == spec_price_text(fixed@),
{
    let n = fixed.unicode_len();
    let mut k: usize = 0;
    while k < n && fixed.get_char(k) != '.'
        invariant
            n == fixed@.len(),
            k <= n,
            forall|j: int| 0 <= j < k ==> fixed@[j] != '.',
        decreases n - k,
    {
        k = k + 1;
    }
    let mut out = String::new();
    if k < n {
        append_grouped(&mut out, fixed.substring_char(0, k));
        proof {
            reveal_strlit(".");
        }
        out.append(".");
        out.append(fixed.substring_char(k + 1, n));
        proof {
            assert(is_first_dot(fixed@, k as int));
            let c = choose|c: int| is_first_dot(fixed@, c);
            assert(c == k) by {
                if c < k {
                    assert(fixed@[c] != '.');
                } else if c > k {
                    assert(fixed@[k as int] != '.');
                }
            }
            assert(out@ =~= spec_price_text(fixed@));
        }
    } else {
        append_grouped(&mut out, fixed);
        proof {
            reveal_strlit(".00");
        }
        out.append(".00");
        proof {
            assert forall|c: int| !is_first_dot(fixed@, c) by {
                if 0 <= c < fixed@.len() && fixed@[c] == '.' {
                    assert(fixed@[c] != '.');
                }
            }
            assert(out@ =~= spec_price_text(fixed@));
        }
    }
    out
}

} // verus!
