//! Bit codec: a number and an MSB-first bit vector of fixed width.

use vstd::prelude::*;
use vstd::arithmetic::power2::pow2;
use vstd::arithmetic::power2::lemma_pow2_unfold;
use vstd::arithmetic::div_mod::lemma_div_denominator;
use vstd::arithmetic::div_mod::lemma_fundamental_div_mod;

verus! {

/// True when bit `k` of `n` is set, counting from the least significant end.
pub open spec fn nth_bit(n: nat, k: nat) -> bool {
    (n / pow2(k)) % 2 == 1
}

/// The `c` low bits of `n`, most significant first.
pub open spec fn msb_bits(n: nat, c: nat) -> Seq<bool> {
    Seq::new(c, |i: int| nth_bit(n, (c - 1 - i) as nat))
}

/// The number a bit sequence encodes, most significant bit first.
pub open spec fn bits_value(s: Seq<bool>) -> nat
    decreases s.len(),
{
    if s.len() == 0 {
        0
    } else {
        2 * bits_value(s.drop_last()) + (if s.last() { 1nat } else { 0nat })
    }
}

/// An MSB-first bit sequence of length `c` encodes a number below `pow2(c)`.
pub proof fn lemma_bits_value_bound(s: Seq<bool>)
    ensures
        bits_value(s) < pow2(s.len()),
    decreases s.len(),
{
    vstd::arithmetic::power2::lemma_pow2_pos(s.len());
    if s.len() > 0 {
        lemma_bits_value_bound(s.drop_last());
        lemma_pow2_unfold(s.len());
    }
}

/// A prefix contributes its value shifted by the length of the suffix.
pub proof fn lemma_bits_value_split(s: Seq<bool>, i: int)
    requires
        0 <= i <= s.len(),
    ensures
        bits_value(s) == bits_value(s.take(i)) * pow2((s.len() - i) as nat) + bits_value(s.skip(i)),
    decreases s.len(),
{
    if i == s.len() {
        assert(s.take(i) =~= s);
        assert(s.skip(i) =~= Seq::<bool>::empty());
        assert(pow2(0) == 1) by {
            vstd::arithmetic::power2::lemma2_to64();
        }
        assert(bits_value(s.take(i)) * pow2((s.len() - i) as nat) == bits_value(s.take(i))) by {
            vstd::arithmetic::mul::lemma_mul_basics(bits_value(s.take(i)) as int);
        }
    } else {
        let sdl = s.drop_last();
        lemma_bits_value_split(sdl, i);
        assert(sdl.take(i) =~= s.take(i));
        assert(s.skip(i).drop_last() =~= sdl.skip(i));
        assert(s.skip(i).last() == s.last());
        assert(s.skip(i).len() > 0);
        assert(bits_value(s.skip(i)) == 2 * bits_value(sdl.skip(i)) + (if s.last() {
            1nat
        } else {
            0nat
        }));
        assert(bits_value(s) == 2 * bits_value(sdl) + (if s.last() {
            1nat
        } else {
            0nat
        }));
        lemma_pow2_unfold((s.len() - i) as nat);
        assert(2 * (bits_value(s.take(i)) * pow2((s.len() - 1 - i) as nat)) == bits_value(
            s.take(i),
        ) * pow2((s.len() - i) as nat)) by {
            vstd::arithmetic::mul::lemma_mul_is_associative(
                2,
                bits_value(s.take(i)) as int,
                pow2((s.len() - 1 - i) as nat) as int,
            );
            vstd::arithmetic::mul::lemma_mul_is_commutative(2, bits_value(s.take(i)) as int);
            vstd::arithmetic::mul::lemma_mul_is_associative(
                bits_value(s.take(i)) as int,
                2,
                pow2((s.len() - 1 - i) as nat) as int,
            );
        }
    }
}

/// The round trip of the codec: decoding the MSB-first bits of `n` gives `n` back.
pub proof fn lemma_bit_codec_round_trip(n: nat, c: nat)
    requires
        n < pow2(c),
    ensures
        bits_value(msb_bits(n, c)) == n,
    decreases c,
{
    if c == 0 {
        assert(pow2(0) == 1) by {
            vstd::arithmetic::power2::lemma2_to64();
        }
    } else {
        let s = msb_bits(n, c);
        let half = n / 2;
        assert forall|i: int| 0 <= i < c - 1 implies s.drop_last()[i] == msb_bits(half, (c - 1) as nat)[i] by {
            let k = (c - 2 - i) as nat;
            vstd::arithmetic::power2::lemma_pow2_pos(k);
            lemma_pow2_unfold(k + 1);
            lemma_div_denominator(n as int, 2, pow2(k) as int);
            assert(half / pow2(k) == n / pow2(k + 1));
        }
        assert(s.drop_last() =~= msb_bits(half, (c - 1) as nat));
        assert(s.last() == nth_bit(n, 0));
        assert(pow2(0) == 1) by {
            vstd::arithmetic::power2::lemma2_to64();
        }
        assert(nth_bit(n, 0) == (n % 2 == 1));
        lemma_pow2_unfold(c);
        assert(half < pow2((c - 1) as nat)) by {
            lemma_div_denominator(n as int, 1, 2);
        }
        lemma_bit_codec_round_trip(half, (c - 1) as nat);
        lemma_fundamental_div_mod(n as int, 2);
    }
}

/// The bit vector `number_to_bits` produces: the MSB-first bits of `n`
/// in `c` positions, or all ones when `n` exceeds `max`.
pub open spec fn spec_number_to_bits(n: nat, c: nat, max: nat) -> Seq<bool> {
    if n > max {
        Seq::new(c, |i: int| true)
    } else {
        msb_bits(n, c)
    }
}

/// MSB-first encoding of `number` in `capacity` bits; all ones when
/// `number` exceeds `max`.
pub fn number_to_bits(number: usize, capacity: u8, max: usize) -> (r: Vec<bool>)
    ensures
        r@.len() == capacity as nat,
        r@ == spec_number_to_bits(number as nat, capacity as nat, max as nat),
        number <= max ==> r@ == msb_bits(number as nat, capacity as nat),
        number > max ==> forall|i: int| 0 <= i < capacity as int ==> r@[i],
{
    let cap = capacity as usize;
    let mut result: Vec<bool> = Vec::new();

    if number > max {
        for k in 0..cap
            invariant
                result@.len() == k,
                forall|j: int| 0 <= j < result@.len() ==> result@[j],
            decreases cap - k,
        {
            result.push(true);
        }
        proof {
            assert(result@ =~= spec_number_to_bits(number as nat, capacity as nat, max as nat));
        }
        return result;
    }

    let lsb = low_bits_lsb_first(number, cap);

    for i in 0..cap
        invariant
            lsb@.len() == cap,
            forall|j: int| 0 <= j < cap ==> lsb@[j] == nth_bit(number as nat, j as nat),
            result@.len() == i,
            forall|j: int| 0 <= j < i ==> result@[j] == lsb@[cap - 1 - j],
        decreases cap - i,
    {
        result.push(lsb[cap - 1 - i]);
    }
    proof {
        assert(result@ =~= msb_bits(number as nat, capacity as nat));
    }
    result
}

/// The `capacity` low bits of `number`, least significant first.
fn low_bits_lsb_first(number: usize, capacity: usize) -> (r: Vec<bool>)
    ensures
        r@.len() == capacity,
        forall|j: int| 0 <= j < capacity ==> r@[j] == nth_bit(number as nat, j as nat),
{
    let mut lsb: Vec<bool> = Vec::new();
    let mut temp: usize = number;

    proof {
        assert(pow2(0) == 1) by {
            vstd::arithmetic::power2::lemma2_to64();
        }
    }
    for k in 0..capacity
        invariant
            lsb@.len() == k,
            temp == number as nat / pow2(k as nat),
            forall|j: int| 0 <= j < k ==> lsb@[j] == nth_bit(number as nat, j as nat),
        decreases capacity - k,
    {
        proof {
            vstd::arithmetic::power2::lemma_pow2_pos(k as nat);
            lemma_pow2_unfold((k + 1) as nat);
            lemma_div_denominator(number as int, pow2(k as nat) as int, 2);
        }
        lsb.push(temp % 2 == 1);
        temp = temp / 2;
    }
    lsb
}

/// The number an MSB-first bit slice encodes.
pub fn bits_to_number(bits: &[bool]) -> (r: usize)
    requires
        bits_value(bits@) <= usize::MAX,
    ensures
        r == bits_value(bits@),
{
    let n = bits.len();
    let mut result: usize = 0;

    for i in 0..n
        invariant
            n == bits@.len(),
            result == bits_value(bits@.take(i as int)),
            bits_value(bits@) <= usize::MAX,
        decreases n - i,
    {
        proof {
            assert(bits@.take(i + 1).drop_last() =~= bits@.take(i as int));
            assert(bits@.take(i + 1).last() == bits@[i as int]);
            lemma_bits_value_split(bits@, i + 1);
            vstd::arithmetic::power2::lemma_pow2_pos((bits@.len() - i - 1) as nat);
            assert(bits_value(bits@.take(i + 1)) * 1 <= bits_value(bits@.take(i + 1)) * pow2(
                (bits@.len() - i - 1) as nat,
            )) by {
                vstd::arithmetic::mul::lemma_mul_inequality(
                    1,
                    pow2((bits@.len() - i - 1) as nat) as int,
                    bits_value(bits@.take(i + 1)) as int,
                );
            }
        }
        result = result * 2 + (if bits[i] {
            1
        } else {
            0
        });
    }
    proof {
        assert(bits@.take(n as int) =~= bits@);
    }
    result
}

/// The `capacity` low bits of `number`, most significant first, with no
/// saturation bound.
pub fn number_to_bytes(number: usize, capacity: usize) -> (r: Vec<bool>)
    ensures
        r@.len() == capacity as nat,
        forall|i: int| 0 <= i < capacity as int ==> r@[i] == nth_bit(
            number as nat,
            (capacity - 1 - i) as nat,
        ),
{
    let lsb = low_bits_lsb_first(number, capacity);

    let mut result: Vec<bool> = Vec::new();
    for i in 0..capacity
        invariant
            lsb@.len() == capacity,
            forall|j: int| 0 <= j < capacity ==> lsb@[j] == nth_bit(number as nat, j as nat),
            result@.len() == i,
            forall|j: int| 0 <= j < i ==> result@[j] == lsb@[capacity - 1 - j],
        decreases capacity - i,
    {
        result.push(lsb[capacity - 1 - i]);
    }
    result
}

/// `pow2(e)` as a machine integer.
#[verifier::loop_isolation(false)]
pub fn pow2_usize(e: u8) -> (r: usize)
    requires
        e <= 30,
    ensures
        r == pow2(e as nat),
{
    proof {
        vstd::arithmetic::power2::lemma2_to64();
    }
    let mut r: usize = 1;
    let n = e as usize;
    for j in 0..n
        invariant
            n == e as nat,
            n <= 30,
            r == pow2(j as nat),
        decreases n - j,
    {
        proof {
            lemma_pow2_unfold((j + 1) as nat);
            if j + 1 < 30 {
                vstd::arithmetic::power2::lemma_pow2_strictly_increases((j + 1) as nat, 30);
            }
        }
        r = r * 2;
    }
    r
}

/// Text of `+`/`-`-style bit input: `0`, `.` and `-` read as a cleared bit,
/// every other character as a set one.
pub fn parse_bit_text(text: &str) -> (r: Vec<bool>)
    ensures
        r@.len() == text@.len(),
        forall|i: int| 0 <= i < text@.len() ==> r@[i] == (text@[i] != '0' && text@[i] != '.'
            && text@[i] != '-'),
{
    let n = text.unicode_len();
    let mut result: Vec<bool> = Vec::new();
    for i in 0..n
        invariant
            n == text@.len(),
            result@.len() == i,
            forall|j: int| 0 <= j < i ==> result@[j] == (text@[j] != '0' && text@[j] != '.'
                && text@[j] != '-'),
        decreases n - i,
    {
        let c = text.get_char(i);
        result.push(c != '0' && c != '.' && c != '-');
    }
    result
}

/// Bounds of one field width's grid size: with 1 to 24 bits the grid
/// holds between 2 and 16777216 points.
pub proof fn lemma_capacity_grid_bounds(c: nat)
    requires
        1 <= c <= 24,
    ensures
        2 <= pow2(c) <= 0x1000000,
{
    vstd::arithmetic::power2::lemma2_to64();
    if c < 24 {
        vstd::arithmetic::power2::lemma_pow2_strictly_increases(c, 24);
    }
    if 1 < c {
        vstd::arithmetic::power2::lemma_pow2_strictly_increases(1, c);
    }
}

/// The number the bits `from .. to` of an MSB-first slice encode.
pub fn bits_slice_value(bits: &[bool], from: usize, to: usize) -> (r: usize)
    requires
        from <= to <= bits@.len(),
        to - from <= 30,
    ensures
        r == bits_value(bits@.subrange(from as int, to as int)),
        r < pow2((to - from) as nat),
{
    proof {
        lemma_bits_value_bound(bits@.subrange(from as int, to as int));
        vstd::arithmetic::power2::lemma2_to64();
        if to - from < 30 {
            vstd::arithmetic::power2::lemma_pow2_strictly_increases((to - from) as nat, 30);
        }
    }
    let mut result: usize = 0;
    for i in from..to
        invariant
            from <= i <= to <= bits@.len(),
            to - from <= 30,
            result == bits_value(bits@.subrange(from as int, i as int)),
            result < pow2((i - from) as nat),
            pow2((to - from) as nat) <= 0x4000_0000,
        decreases to - i,
    {
        proof {
            let sub = bits@.subrange(from as int, i + 1);
            assert(sub.drop_last() =~= bits@.subrange(from as int, i as int));
            assert(sub.last() == bits@[i as int]);
            lemma_bits_value_bound(sub);
            lemma_pow2_unfold((i + 1 - from) as nat);
            if i + 1 - from < to - from {
                vstd::arithmetic::power2::lemma_pow2_strictly_increases(
                    (i + 1 - from) as nat,
                    (to - from) as nat,
                );
            }
        }
        result = result * 2 + (if bits[i] {
            1
        } else {
            0
        });
    }
    result
}

/// The bits `from .. to` of a slice, as their own vector.
pub fn copy_bit_range(bits: &[bool], from: usize, to: usize) -> (r: Vec<bool>)
    requires
        from <= to <= bits@.len(),
    ensures
        r@ == bits@.subrange(from as int, to as int),
{
    let mut r: Vec<bool> = Vec::new();
    for i in from..to
        invariant
            from <= i <= to <= bits@.len(),
            r@.len() == i - from,
            forall|j: int| 0 <= j < r@.len() ==> #[trigger] r@[j] == bits@[from + j],
        decreases to - i,
    {
        r.push(bits[i]);
    }
    proof {
        assert(r@ =~= bits@.subrange(from as int, to as int));
    }
    r
}


} // verus!
