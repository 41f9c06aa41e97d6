use vstd::prelude::*;

verus! {

/// `256^k`, the number of values that `k` bytes can hold.
pub open spec fn radix(k: nat) -> nat
    decreases k,
{
    if k == 0 {
        1
    } else {
        256 * radix((k - 1) as nat)
    }
}

/// The number that a byte string spells when read least significant byte
/// first.
pub open spec fn le_value(bytes: Seq<u8>) -> nat
    decreases bytes.len(),
{
    if bytes.len() == 0 {
        0
    } else {
        bytes[0] as nat + 256 * le_value(bytes.drop_first())
    }
}

/// The `width` bytes that spell `n` least significant byte first (the low
/// `width` bytes of `n` where it is too large).
pub open spec fn le_bytes(n: nat, width: nat) -> Seq<u8>
    decreases width,
{
    if width == 0 {
        Seq::empty()
    } else {
        seq![(n % 256) as u8] + le_bytes(n / 256, (width - 1) as nat)
    }
}

/// A byte string of `k` bytes spells a number below `256^k`.
pub proof fn lemma_le_value_bound(bytes: Seq<u8>)
    ensures
        le_value(bytes) < radix(bytes.len()),
    decreases bytes.len(),
{
    if bytes.len() > 0 {
        lemma_le_value_bound(bytes.drop_first());
    }
}

/// `le_bytes` yields exactly `width` bytes.
pub proof fn lemma_le_bytes_len(n: nat, width: nat)
    ensures
        le_bytes(n, width).len() == width,
    decreases width,
{
    if width > 0 {
        lemma_le_bytes_len(n / 256, (width - 1) as nat);
    }
}

/// Reading back the bytes written for a number that fits gives the number.
pub proof fn lemma_le_value_of_bytes(n: nat, width: nat)
    requires
        n < radix(width),
    ensures
        le_value(le_bytes(n, width)) == n,
    decreases width,
{
    if width > 0 {
        let rest = le_bytes(n / 256, (width - 1) as nat);
        lemma_le_value_of_bytes(n / 256, (width - 1) as nat);
        lemma_le_bytes_len(n / 256, (width - 1) as nat);
        let all = le_bytes(n, width);
        assert(all.drop_first() =~= rest);
        assert(all[0] == (n % 256) as u8);
    }
}

/// Reads `width` bytes at `pos` as an unsigned little-endian number.
pub fn read_le(bytes: &[u8], pos: usize, width: usize) -> (value: u128)
    requires
        width <= 16,
        pos + width <= bytes@.len(),
    ensures
        value as nat == le_value(bytes@.subrange(pos as int, pos + width)),
        (value as nat) < radix(width as nat),
{
    let ghost field = bytes@.subrange(pos as int, pos + width);
    let len: usize = bytes.len();
    let mut value: u128 = 0;
    let mut taken: usize = 0;
    proof {
        reveal_with_fuel(radix, 17);
        assert(radix(16) == 0x1_0000_0000_0000_0000_0000_0000_0000_0000nat);
    }
    while taken < width
        invariant
            taken <= width <= 16,
            pos + width <= len,
            len == bytes@.len(),
            field == bytes@.subrange(pos as int, pos + width),
            value as nat == le_value(field.subrange(width - taken, width as int)),
            radix(16) == 0x1_0000_0000_0000_0000_0000_0000_0000_0000nat,
        decreases width - taken,
    {
        let byte: u8 = bytes[pos + (width - taken - 1)];
        proof {
            let old_part = field.subrange(width - taken, width as int);
            let new_part = field.subrange(width - taken - 1, width as int);
            assert(new_part.drop_first() =~= old_part);
            assert(new_part[0] == byte);
            lemma_le_value_bound(new_part);
            lemma_radix_monotone(new_part.len(), 16);
        }
        value = value * 256 + byte as u128;
        taken = taken + 1;
    }
    proof {
        assert(field.subrange(0, width as int) =~= field);
        lemma_le_value_bound(field);
    }
    value
}

/// `256^a <= 256^b` for `a <= b`.
pub proof fn lemma_radix_monotone(a: nat, b: nat)
    requires
        a <= b,
    ensures
        radix(a) <= radix(b),
        radix(a) > 0,
    decreases b,
{
    if a < b {
        lemma_radix_monotone(a, (b - 1) as nat);
    } else if a > 0 {
        lemma_radix_monotone((a - 1) as nat, (a - 1) as nat);
    }
}

} // verus!
