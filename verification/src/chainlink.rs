//! Decoding of the Chainlink aggregator's `latestRoundData()` reply.
//!
//! The reply is ABI-encoded as five 32-byte words in hex (`0x` prefixed):
//! round id, answer (price × 10^8), started at, updated at (Unix seconds),
//! answered in round. Both fields of interest fit in the last 8 bytes of their
//! word, so only the last 16 hex characters of words 1 and 3 are read.

use vstd::prelude::*;
use vstd::string::*;

verus! {

/// Hex characters needed for the five words.
pub const ABI_REPLY_MIN_HEX: usize = 320;

/// `b` with every leading `0x` removed (`str::trim_start_matches("0x")`).
pub open spec fn strip_hex_prefixes(b: Seq<u8>) -> Seq<u8>
    decreases b.len(),
{
    if b.len() >= 2 && b[0] == 48u8 && b[1] == 120u8 {
        strip_hex_prefixes(b.skip(2))
    } else {
        b
    }
}

/// Value of one hex digit (either case).
pub open spec fn hex_digit(c: u8) -> Option<int> {
    if 48 <= c <= 57 {
        Some(c - 48)
    } else if 97 <= c <= 102 {
        Some(c - 87)
    } else if 65 <= c <= 70 {
        Some(c - 55)
    } else {
        None
    }
}

pub open spec fn all_hex(ds: Seq<u8>) -> bool {
    forall|i: int| 0 <= i < ds.len() ==> #[trigger] hex_digit(ds[i]) is Some
}

pub open spec fn hex_value(ds: Seq<u8>) -> int
    decreases ds.len(),
{
    if ds.len() == 0 {
        0
    } else {
        16 * hex_value(ds.drop_last()) + hex_digit(ds.last()).unwrap()
    }
}

/// `u64::from_str_radix(field, 16)` for a field of at most 16 characters: an
/// optional `+`, then at least one hex digit.
pub open spec fn spec_hex_field(field: Seq<u8>) -> Option<u64> {
    let ds = if field.len() > 0 && field[0] == 43u8 {
        field.drop_first()
    } else {
        field
    };
    if ds.len() == 0 || !all_hex(ds) {
        None
    } else {
        Some(hex_value(ds) as u64)
    }
}

/// Byte `i` starts a character (is not a UTF-8 continuation byte) or is the end.
pub open spec fn starts_char(b: Seq<u8>, i: int) -> bool {
    i == b.len() || (0 <= i < b.len() && !(128 <= b[i] < 192))
}

/// Largest accepted answer word: a price of 10,000,000 USD at 8 decimals.
pub const MAX_ANSWER: u64 = 1_000_000_000_000_000;

/// The answer word is a price in range: above zero and at most 10,000,000 USD.
pub open spec fn answer_in_range(answer: u64) -> bool {
    0 < answer <= MAX_ANSWER
}

/// The raw answer and update time words, or `None` when the reply is too short,
/// the answer is not hexadecimal or not a price in range (zero, or above
/// 10,000,000 USD), or the update time is not hexadecimal.
pub open spec fn spec_decode_round(b: Seq<u8>) -> Option<(u64, u64)> {
    let t = strip_hex_prefixes(b);
    if t.len() < ABI_REPLY_MIN_HEX {
        None
    } else {
        match spec_hex_field(t.subrange(112, 128)) {
            Some(answer) => if answer_in_range(answer) {
                match spec_hex_field(t.subrange(240, 256)) {
                    Some(updated) => Some((answer, updated)),
                    None => None,
                }
            } else {
                None
            },
            None => None,
        }
    }
}

/// The reply would be cut inside a multi-byte character (slicing `str` panics there).
pub open spec fn decode_would_split_char(b: Seq<u8>) -> bool {
    let t = strip_hex_prefixes(b);
    &&& t.len() >= ABI_REPLY_MIN_HEX
    &&& {
        ||| !starts_char(t, 112)
        ||| !starts_char(t, 128)
        ||| (spec_hex_field(t.subrange(112, 128)) matches Some(a) && answer_in_range(a) && (
        !starts_char(t, 240) || !starts_char(t, 256)))
    }
}

pub open spec fn pow16(n: nat) -> int
    decreases n,
{
    if n == 0 {
        1
    } else {
        16 * pow16((n - 1) as nat)
    }
}

proof fn lemma_pow16_mono(a: nat, b: nat)
    requires
        a <= b,
    ensures
        1 <= pow16(a) <= pow16(b),
    decreases b,
{
    if a < b {
        lemma_pow16_mono(a, (b - 1) as nat);
    } else if b > 0 {
        lemma_pow16_mono(0, (b - 1) as nat);
    }
}

proof fn lemma_pow16_16()
    ensures
        pow16(16) == 0x1_0000_0000_0000_0000,
{
    reveal_with_fuel(pow16, 17);
}

fn hex_digit_exec(c: u8) -> (r: Option<u64>)
    ensures
        match r {
            Some(v) => hex_digit(c) == Some(v as int) && v < 16,
            None => hex_digit(c) is None,
        },
{
    if 48 <= c && c <= 57 {
        Some((c - 48) as u64)
    } else if 97 <= c && c <= 102 {
        Some((c - 87) as u64)
    } else if 65 <= c && c <= 70 {
        Some((c - 55) as u64)
    } else {
        None
    }
}

/// Reads the hex field `b[from..to]`; see [`spec_hex_field`].
fn parse_hex_field(b: &[u8], from: usize, to: usize) -> (r: Option<u64>)
    requires
        from <= to <= b@.len(),
        to - from <= 16,
    ensures
        r == spec_hex_field(b@.subrange(from as int, to as int)),
{
    let ghost field = b@.subrange(from as int, to as int);
    let start: usize = if from < to && b[from] == 43u8 {
        from + 1
    } else {
        from
    };
    let ghost ds = b@.subrange(start as int, to as int);
    proof {
        if start == from + 1 {
            assert(field.drop_first() =~= ds);
        } else {
            assert(field =~= ds);
        }
        assert((if field.len() > 0 && field[0] == 43u8 {
            field.drop_first()
        } else {
            field
        }) == ds);
    }
    if start == to {
        return None;
    }
    let mut acc: u128 = 0;
    let mut i: usize = start;
    while i < to
        invariant
            from <= start <= i <= to <= b@.len(),
            to - start <= 16,
            ds == b@.subrange(start as int, to as int),
            field == b@.subrange(from as int, to as int),
            ds == (if field.len() > 0 && field[0] == 43u8 {
                field.drop_first()
            } else {
                field
            }),
            all_hex(ds.take(i - start)),
            acc == hex_value(ds.take(i - start)),
            acc < pow16((i - start) as nat),
        decreases to - i,
    {
        let d = match hex_digit_exec(b[i]) {
            Some(v) => v,
            None => {
                proof {
                    assert(ds[i - start] == b@[i as int]);
                    assert(hex_digit(ds[i - start]) is None);
                    assert(!all_hex(ds));
                }
                return None;
            },
        };
        proof {
            let t = ds.take(i - start + 1);
            assert(t.drop_last() =~= ds.take(i - start));
            assert(t.last() == b@[i as int]);
            assert forall|k: int| 0 <= k < t.len() implies #[trigger] hex_digit(t[k]) is Some by {
                if k < t.len() - 1 {
                    assert(t[k] == ds.take(i - start)[k]);
                }
            }
            let p = pow16((i - start) as nat);
            assert(pow16((i - start + 1) as nat) == 16 * p);
            assert(acc * 16 + d < 16 * p) by (nonlinear_arith)
                requires
                    acc < p,
                    d < 16,
            ;
            lemma_pow16_mono((i - start + 1) as nat, 16);
            lemma_pow16_16();
        }
        acc = acc * 16 + d as u128;
        i = i + 1;
    }
    proof {
        assert(ds.take(to - start) =~= ds);
        lemma_pow16_mono((to - start) as nat, 16);
        lemma_pow16_16();
    }
    Some(acc as u64)
}

/// Decodes the `latestRoundData()` reply `hex` into the raw answer word
/// (price × 10^8) and the update time (Unix seconds); a price of zero or above
/// 10,000,000 USD is refused. See [`spec_decode_round`].
pub fn decode_latest_round_data(hex: &str) -> (r: Option<(u64, u64)>)
    requires
        !decode_would_split_char(hex.spec_bytes()),
    ensures
        r == spec_decode_round(hex.spec_bytes()),
{
    let b = hex.as_bytes();
    let n = b.len();
    let mut i: usize = 0;
    assert(b@.skip(0) =~= b@);
    while n - i >= 2 && b[i] == 48u8 && b[i + 1] == 120u8
        invariant
            n == b@.len(),
            i <= n,
            i % 2 == 0,
            strip_hex_prefixes(b@.skip(i as int)) == strip_hex_prefixes(b@),
        decreases n - i,
    {
        proof {
            assert(b@.skip(i as int).skip(2) =~= b@.skip(i + 2));
        }
        i = i + 2;
    }
    let ghost t = b@.skip(i as int);
    proof {
        assert(strip_hex_prefixes(t) == t);
    }
    if n - i < ABI_REPLY_MIN_HEX {
        return None;
    }
    proof {
        assert(t.subrange(112, 128) =~= b@.subrange(i + 112, i + 128));
        assert(t.subrange(240, 256) =~= b@.subrange(i + 240, i + 256));
    }
    let answer = match parse_hex_field(b, i + 112, i + 128) {
        Some(v) => v,
        None => {
            return None;
        },
    };
    if answer == 0 || answer > MAX_ANSWER {
        return None;
    }
    let updated = match parse_hex_field(b, i + 240, i + 256) {
        Some(v) => v,
        None => {
            return None;
        },
    };
    Some((answer, updated))
}

} // verus!
