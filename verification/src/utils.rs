//! Utility functions: checksums, human-readable sizes, brick paths,
//! alignment.

use vstd::prelude::*;
use vstd::string::StringExecFns;

verus! {

/// The character of a single decimal digit.
pub open spec fn dec_digit(d: int) -> char {
    if d == 0 {
        '0'
    } else if d == 1 {
        '1'
    } else if d == 2 {
        '2'
    } else if d == 3 {
        '3'
    } else if d == 4 {
        '4'
    } else if d == 5 {
        '5'
    } else if d == 6 {
        '6'
    } else if d == 7 {
        '7'
    } else if d == 8 {
        '8'
    } else {
        '9'
    }
}

/// The decimal digits of a non-negative number, most significant first.
pub open spec fn dec_str(n: int) -> Seq<char>
    decreases n,
{
    if n < 10 {
        seq![dec_digit(n)]
    } else {
        dec_str(n / 10) + seq![dec_digit(n % 10)]
    }
}

/// The string of one decimal digit.
fn digit_str(d: u64) -> (r: &'static str)
    requires
        d < 10,
    ensures
        r@ =~= seq![dec_digit(d as int)],
{
    if d == 0 {
        proof {
            reveal_strlit("0");
        }
        return "0";
    }
    if d == 1 {
        proof {
            reveal_strlit("1");
        }
        return "1";
    }
    if d == 2 {
        proof {
            reveal_strlit("2");
        }
        return "2";
    }
    if d == 3 {
        proof {
            reveal_strlit("3");
        }
        return "3";
    }
    if d == 4 {
        proof {
            reveal_strlit("4");
        }
        return "4";
    }
    if d == 5 {
        proof {
            reveal_strlit("5");
        }
        return "5";
    }
    if d == 6 {
        proof {
            reveal_strlit("6");
        }
        return "6";
    }
    if d == 7 {
        proof {
            reveal_strlit("7");
        }
        return "7";
    }
    if d == 8 {
        proof {
            reveal_strlit("8");
        }
        return "8";
    }
    proof {
        reveal_strlit("9");
    }
    "9"
}

/// Render a number in decimal.
pub fn u64_to_dec(n: u64) -> (r: String)
    ensures
        r@ == dec_str(n as int),
    decreases n,
{
    if n < 10 {
        let r = String::from_str(digit_str(n));
        proof {
            assert(r@ =~= dec_str(n as int));
        }
        r
    } else {
        let mut s = u64_to_dec(n / 10);
        s.append(digit_str(n % 10));
        proof {
            assert(s@ =~= dec_str(n as int));
        }
        s
    }
}

/// `s` left-padded with zeros to at least `w` characters.
pub open spec fn zero_pad(s: Seq<char>, w: int) -> Seq<char> {
    if s.len() >= w {
        s
    } else {
        Seq::new((w - s.len()) as nat, |i: int| '0') + s
    }
}

/// Left-pad a string of digits with zeros to at least `w` characters.
pub fn pad_left_zeros(s: String, w: usize) -> (r: String)
    ensures
        r@ == zero_pad(s@, w as int),
{
    let n = s.as_str().unicode_len();
    if n >= w {
        proof {
            assert(s@.len() >= w);
        }
        return s;
    }
    let mut r = String::new();
    let mut i: usize = 0;
    proof {
        reveal_strlit("0");
    }
    while i < w - n
        invariant
            0 <= i <= w - n,
            n == s@.len(),
            n < w,
            r@ =~= Seq::new(i as nat, |t: int| '0'),
        decreases w - n - i,
    {
        proof {
            reveal_strlit("0");
            assert(Seq::new((i + 1) as nat, |t: int| '0') =~= Seq::new(i as nat, |t: int| '0')
                + "0"@);
        }
        r.append("0");
        i = i + 1;
    }
    r.append(s.as_str());
    proof {
        assert(r@ =~= zero_pad(s@, w as int));
    }
    r
}

/// The storage path of a brick: `bricks/lod{L}/{index:08}.brick`, with the
/// linear brick index zero-padded to eight digits. This convention is part
/// of the on-disk format and must be reproduced bit for bit.
pub open spec fn brick_path_spec(index: int, lod_level: int) -> Seq<char> {
    "bricks/lod"@ + dec_str(lod_level) + "/"@ + zero_pad(dec_str(index), 8) + ".brick"@
}

/// The storage path of a brick, from its linear index and LOD level.
pub fn brick_path(index: usize, lod_level: usize) -> (r: String)
    ensures
        r@ == brick_path_spec(index as int, lod_level as int),
{
    let mut r = String::from_str("bricks/lod");
    let lod_s = u64_to_dec(lod_level as u64);
    r.append(lod_s.as_str());
    r.append("/");
    let idx_s = u64_to_dec(index as u64);
    let idx_p = pad_left_zeros(idx_s, 8);
    r.append(idx_p.as_str());
    r.append(".brick");
    proof {
        assert(r@ =~= brick_path_spec(index as int, lod_level as int));
    }
    r
}

/// One round of the checksum's bit loop.
pub open spec fn crc32_bit(crc: u32) -> u32 {
    if crc & 1 != 0 {
        (crc >> 1) ^ 0xEDB88320u32
    } else {
        crc >> 1
    }
}

/// `rounds` rounds of the checksum's bit loop.
pub open spec fn crc32_bits(crc: u32, rounds: nat) -> u32
    decreases rounds,
{
    if rounds == 0 {
        crc
    } else {
        crc32_bit(crc32_bits(crc, (rounds - 1) as nat))
    }
}

/// The checksum state after absorbing `data` into `acc`.
pub open spec fn crc32_fold(data: Seq<u8>, acc: u32) -> u32
    decreases data.len(),
{
    if data.len() == 0 {
        acc
    } else {
        crc32_fold(data.drop_first(), crc32_bits(acc ^ (data[0] as u32), 8))
    }
}

/// The CRC-32 checksum of `data`.
pub open spec fn crc32_spec(data: Seq<u8>) -> u32 {
    crc32_fold(data, 0xFFFFFFFFu32) ^ 0xFFFFFFFFu32
}

/// Calculate the CRC-32 checksum of `data`.
pub fn calculate_checksum(data: &[u8]) -> (r: u32)
    ensures
        r == crc32_spec(data@),
{
    let mut crc: u32 = 0xFFFFFFFF;
    let mut i: usize = 0;
    let n = data.len();
    proof {
        assert(data@.skip(0) =~= data@);
    }
    while i < n
        invariant
            0 <= i <= n,
            n == data@.len(),
            crc32_fold(data@, 0xFFFFFFFFu32) == crc32_fold(data@.skip(i as int), crc),
        decreases n - i,
    {
        let ghost pre = crc;
        let ghost rest = data@.skip(i as int);
        crc = crc ^ (data[i] as u32);
        let ghost start = crc;
        let mut round: usize = 0;
        while round < 8
            invariant
                0 <= round <= 8,
                crc == crc32_bits(start, round as nat),
            decreases 8 - round,
        {
            if crc & 1 != 0 {
                crc = (crc >> 1) ^ 0xEDB88320;
            } else {
                crc = crc >> 1;
            }
            round = round + 1;
        }
        proof {
            assert(rest[0] == data@[i as int]);
            assert(start == pre ^ (rest[0] as u32));
            assert(crc == crc32_bits(pre ^ (rest[0] as u32), 8));
            assert(rest.drop_first() =~= data@.skip(i + 1));
            assert(crc32_fold(rest, pre) == crc32_fold(data@.skip(i + 1), crc));
        }
        i = i + 1;
    }
    proof {
        assert(data@.skip(n as int) =~= Seq::<u8>::empty());
    }
    crc ^ 0xFFFFFFFF
}

/// Whether `data` carries the checksum `expected`.
pub fn verify_checksum(data: &[u8], expected: u32) -> (r: bool)
    ensures
        r == (crc32_spec(data@) == expected),
{
    let c = calculate_checksum(data);
    c == expected
}

/// The display unit for a size scaled down `idx` times by 1024.
pub open spec fn byte_unit(idx: int) -> Seq<char> {
    if idx <= 0 {
        "B"@
    } else if idx == 1 {
        "KB"@
    } else if idx == 2 {
        "MB"@
    } else if idx == 3 {
        "GB"@
    } else if idx == 4 {
        "TB"@
    } else {
        "PB"@
    }
}

/// `1024` to the power `k`.
pub open spec fn pow1024(k: int) -> int
    decreases k,
{
    if k <= 0 {
        1
    } else {
        1024 * pow1024(k - 1)
    }
}

/// How many times a byte count is scaled down by 1024 for display: the
/// largest step, at most five, that leaves at least one unit.
pub open spec fn scale_index(bytes: int) -> int {
    if bytes < 1024 {
        0
    } else if bytes < 1048576 {
        1
    } else if bytes < 1073741824 {
        2
    } else if bytes < 1099511627776 {
        3
    } else if bytes < 1125899906842624 {
        4
    } else {
        5
    }
}

/// The scaled size in hundredths of a unit, rounded half away from zero.
pub open spec fn scaled_hundredths(bytes: int, k: int) -> int {
    (bytes * 200 / pow1024(k) + 1) / 2
}

/// A byte count rendered for display: scaled to the largest unit that keeps
/// the value at least one, with two decimal places (rounded half up) for
/// every unit above plain bytes.
pub open spec fn format_bytes_spec(bytes: int) -> Seq<char> {
    let k = scale_index(bytes);
    if k == 0 {
        dec_str(bytes) + " "@ + byte_unit(0)
    } else {
        let h = scaled_hundredths(bytes, k);
        dec_str(h / 100) + "."@ + zero_pad(dec_str(h % 100), 2) + " "@ + byte_unit(k)
    }
}

/// Render a byte count in human-readable form.
pub fn format_bytes(bytes: usize) -> (r: String)
    ensures
        r@ == format_bytes_spec(bytes as int),
{
    let b: u128 = bytes as u128;
    let k: usize = if b < 1024 {
        0
    } else if b < 1048576 {
        1
    } else if b < 1073741824 {
        2
    } else if b < 1099511627776 {
        3
    } else if b < 1125899906842624 {
        4
    } else {
        5
    };
    proof {
        assert(k as int == scale_index(bytes as int));
    }
    if k == 0 {
        let mut r = u64_to_dec(bytes as u64);
        r.append(" ");
        r.append("B");
        proof {
            assert(r@ =~= format_bytes_spec(bytes as int));
        }
        return r;
    }
    let p: u128 = if k == 1 {
        1024
    } else if k == 2 {
        1048576
    } else if k == 3 {
        1073741824
    } else if k == 4 {
        1099511627776
    } else {
        1125899906842624
    };
    proof {
        assert(pow1024(0) == 1);
        assert(pow1024(1) == 1024);
        assert(pow1024(2) == 1048576);
        assert(pow1024(3) == 1073741824);
        assert(pow1024(4) == 1099511627776);
        assert(pow1024(5) == 1125899906842624);
        assert(p as int == pow1024(k as int));
        assert(b * 200 <= 0xFFFFFFFFFFFFFFFFu128 * 200) by (nonlinear_arith)
            requires
                b <= 0xFFFFFFFFFFFFFFFFu128,
        ;
    }
    let h128: u128 = (b * 200 / p + 1) / 2;
    proof {
        vstd::arithmetic::div_mod::lemma_div_is_ordered(
            b as int * 200,
            0xFFFFFFFFFFFFFFFFint * 200,
            p as int,
        );
        vstd::arithmetic::div_mod::lemma_div_is_ordered_by_denominator(
            0xFFFFFFFFFFFFFFFFint * 200,
            1024,
            p as int,
        );
        assert(h128 <= 0xFFFFFFFFFFFFFFFFu128);
        assert(h128 as int == scaled_hundredths(bytes as int, k as int));
    }
    let h: u64 = h128 as u64;
    let mut r = u64_to_dec(h / 100);
    r.append(".");
    let frac = pad_left_zeros(u64_to_dec(h % 100), 2);
    r.append(frac.as_str());
    r.append(" ");
    let unit: &'static str = if k == 1 {
        "KB"
    } else if k == 2 {
        "MB"
    } else if k == 3 {
        "GB"
    } else if k == 4 {
        "TB"
    } else {
        "PB"
    };
    proof {
        assert(unit@ == byte_unit(k as int));
    }
    r.append(unit);
    proof {
        assert(r@ =~= format_bytes_spec(bytes as int));
    }
    r
}

/// The size in hundredths of a megabyte, rounded half away from zero.
pub fn mb_hundredths(bytes: usize) -> (r: u64)
    ensures
        r as int == scaled_hundredths(bytes as int, 2),
{
    let b: u128 = bytes as u128;
    proof {
        assert(pow1024(0) == 1);
        assert(pow1024(1) == 1024);
        assert(pow1024(2) == 1048576);
        assert(b * 200 <= 0xFFFFFFFFFFFFFFFFu128 * 200) by (nonlinear_arith)
            requires
                b <= 0xFFFFFFFFFFFFFFFFu128,
        ;
    }
    let h128: u128 = (b * 200 / 1048576 + 1) / 2;
    proof {
        vstd::arithmetic::div_mod::lemma_div_is_ordered(
            b as int * 200,
            0xFFFFFFFFFFFFFFFFint * 200,
            1048576,
        );
        assert(h128 <= 0xFFFFFFFFFFFFFFFFu128);
        assert(h128 as int == scaled_hundredths(bytes as int, 2));
    }
    h128 as u64
}

/// Whether `n` is a power of two.
pub open spec fn is_pow2(n: int) -> bool
    decreases n,
{
    if n <= 0 {
        false
    } else if n == 1 {
        true
    } else {
        n % 2 == 0 && is_pow2(n / 2)
    }
}

/// Round `value` up to the next multiple of `alignment`, a power of two.
pub fn align_to_power_of_2(value: usize, alignment: usize) -> (r: usize)
    requires
        is_pow2(alignment as int),
        value + alignment <= usize::MAX,
    ensures
        r as int % alignment as int == 0,
        value <= r < value + alignment,
        r == (value + alignment - 1) / alignment as int * alignment,
{
    proof {
        assert(alignment >= 1);
    }
    let q = (value + alignment - 1) / alignment;
    proof {
        let a = alignment as int;
        let v = value as int;
        vstd::arithmetic::div_mod::lemma_fundamental_div_mod(v + a - 1, a);
        vstd::arithmetic::div_mod::lemma_mod_bound(v + a - 1, a);
        assert(a * ((v + a - 1) / a) == ((v + a - 1) / a) * a) by (nonlinear_arith);
        assert(q as int * a <= v + a - 1);
        assert(q as int * a >= v);
        vstd::arithmetic::div_mod::lemma_mod_multiples_basic(q as int, a);
        assert((q as int * a) % a == 0);
    }
    q * alignment
}

} // verus!
