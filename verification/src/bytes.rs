//! Byte encodings: little-endian integers and lower-case hexadecimal text.
use vstd::prelude::*;

verus! {

/// The `n` low bytes of `x`, least significant first.
pub open spec fn le_bytes(x: nat, n: nat) -> Seq<u8>
    decreases n,
{
    if n == 0 {
        Seq::empty()
    } else {
        seq![(x % 256) as u8] + le_bytes(x / 256, (n - 1) as nat)
    }
}

/// The number whose little-endian bytes are `s`.
pub open spec fn le_value(s: Seq<u8>) -> nat
    decreases s.len(),
{
    if s.len() == 0 {
        0
    } else {
        s[0] as nat + 256 * le_value(s.drop_first())
    }
}

/// `256` to the power `n`.
pub open spec fn pow256(n: nat) -> nat
    decreases n,
{
    if n == 0 {
        1
    } else {
        256 * pow256((n - 1) as nat)
    }
}

/// Decoding the little-endian bytes of a number that fits gives it back.
pub proof fn lemma_le_roundtrip(x: nat, n: nat)
    requires
        x < pow256(n),
    ensures
        le_bytes(x, n).len() == n,
        le_value(le_bytes(x, n)) == x,
    decreases n,
{
    if n > 0 {
        lemma_le_roundtrip(x / 256, (n - 1) as nat);
        let s = le_bytes(x, n);
        assert(s.drop_first() =~= le_bytes(x / 256, (n - 1) as nat));
    }
}

/// A little-endian value is below `256` to the power of its length.
pub proof fn lemma_le_value_bound(s: Seq<u8>)
    ensures
        le_value(s) < pow256(s.len()),
    decreases s.len(),
{
    if s.len() > 0 {
        lemma_le_value_bound(s.drop_first());
    }
}

/// `256^16` is `2^128`.
pub proof fn lemma_pow256_16()
    ensures
        pow256(16) == 0x1_0000_0000_0000_0000_0000_0000_0000_0000,
{
    reveal_with_fuel(pow256, 17);
}

/// `256^8` is `2^64`.
pub proof fn lemma_pow256_8()
    ensures
        pow256(8) == 0x1_0000_0000_0000_0000,
{
    reveal_with_fuel(pow256, 9);
}

/// Append the `n` low bytes of `x`, least significant first.
pub fn push_le(v: &mut Vec<u8>, x: u128, n: usize)
    ensures
        final(v)@ == old(v)@ + le_bytes(x as nat, n as nat),
    decreases n,
{
    if n > 0 {
        v.push((x % 256) as u8);
        push_le(v, x / 256, n - 1);
        proof {
            assert(final(v)@ =~= old(v)@ + le_bytes(x as nat, n as nat));
        }
    } else {
        proof {
            assert(v@ =~= old(v)@ + le_bytes(x as nat, n as nat));
        }
    }
}

/// The value of up to sixteen little-endian bytes.
pub fn le_decode(bytes: &[u8]) -> (x: u128)
    requires
        bytes@.len() <= 16,
    ensures
        x == le_value(bytes@),
{
    let n = bytes.len();
    let mut acc: u128 = 0;
    let mut i: usize = n;
    proof {
        assert(bytes@.subrange(n as int, n as int) =~= Seq::<u8>::empty());
    }
    while i > 0
        invariant
            n == bytes@.len(),
            n <= 16,
            i <= n,
            acc == le_value(bytes@.subrange(i as int, n as int)),
        decreases i,
    {
        let ghost tail = bytes@.subrange(i as int, n as int);
        let ghost s = bytes@.subrange(i - 1, n as int);
        proof {
            assert(s.drop_first() =~= tail);
            lemma_le_value_bound(s);
            lemma_pow_monotone(s.len(), 16);
            lemma_pow256_16();
        }
        i = i - 1;
        acc = bytes[i] as u128 + 256 * acc;
    }
    proof {
        assert(bytes@.subrange(0, n as int) =~= bytes@);
    }
    acc
}

/// `pow256` grows with its exponent.
pub proof fn lemma_pow_monotone(a: nat, b: nat)
    requires
        a <= b,
    ensures
        pow256(a) <= pow256(b),
    decreases b,
{
    if a < b {
        lemma_pow_monotone(a, (b - 1) as nat);
    }
}

/// The lower-case hexadecimal digit of `d` (below 16).
pub open spec fn hex_digit(d: int) -> char {
    if d < 10 {
        (48 + d) as char
    } else {
        (87 + d) as char
    }
}

/// Whether `c` is one of `0-9a-f`.
pub open spec fn is_lower_hex(c: char) -> bool {
    ('0' <= c && c <= '9') || ('a' <= c && c <= 'f')
}

/// Lower-case hexadecimal text of `bytes`: two digits per byte, high digit first.
pub open spec fn hex_of(bytes: Seq<u8>) -> Seq<char> {
    Seq::new(
        2 * bytes.len(),
        |k: int|
            if k % 2 == 0 {
                hex_digit((bytes[k / 2] / 16) as int)
            } else {
                hex_digit((bytes[k / 2] % 16) as int)
            },
    )
}

/// The lower-case hexadecimal digit of `d`.
pub fn hex_char(d: u8) -> (c: char)
    requires
        d < 16,
    ensures
        c == hex_digit(d as int),
{
    if d < 10 {
        crate::text::char_of_digit(d)
    } else if d == 10 {
        'a'
    } else if d == 11 {
        'b'
    } else if d == 12 {
        'c'
    } else if d == 13 {
        'd'
    } else if d == 14 {
        'e'
    } else {
        'f'
    }
}

/// Lower-case hexadecimal text of `bytes`.
pub fn hex_encode(bytes: &[u8]) -> (s: String)
    requires
        2 * bytes@.len() <= usize::MAX,
    ensures
        s@ == hex_of(bytes@),
{
    let mut s = String::new();
    let mut i: usize = 0;
    proof {
        assert(s@ =~= hex_of(bytes@.subrange(0, 0)));
    }
    while i < bytes.len()
        invariant
            i <= bytes@.len(),
            s@ == hex_of(bytes@.subrange(0, i as int)),
        decreases bytes@.len() - i,
    {
        let b = bytes[i];
        crate::text::push_char(&mut s, hex_char(b / 16));
        crate::text::push_char(&mut s, hex_char(b % 16));
        proof {
            let next = bytes@.subrange(0, i + 1);
            assert forall|k: int| 0 <= k < s@.len() implies s@[k] == hex_of(next)[k] by {
                if k < 2 * i {
                    assert(next[k / 2] == bytes@.subrange(0, i as int)[k / 2]);
                }
            }
            assert(s@ =~= hex_of(next));
        }
        i = i + 1;
    }
    proof {
        assert(bytes@.subrange(0, bytes@.len() as int) =~= bytes@);
    }
    s
}

/// Hexadecimal text has two lower-case hex digits per byte.
pub proof fn lemma_hex_shape(bytes: Seq<u8>)
    ensures
        hex_of(bytes).len() == 2 * bytes.len(),
        forall|k: int| 0 <= k < hex_of(bytes).len() ==> is_lower_hex(#[trigger] hex_of(bytes)[k]),
{
    assert forall|k: int| 0 <= k < hex_of(bytes).len() implies is_lower_hex(#[trigger] hex_of(bytes)[k]) by {
        let b = bytes[k / 2];
        assert(b / 16 < 16 && b % 16 < 16);
    }
}

/// Distinct byte strings have distinct hexadecimal texts.
pub proof fn lemma_hex_injective(a: Seq<u8>, b: Seq<u8>)
    requires
        hex_of(a) == hex_of(b),
    ensures
        a == b,
{
    assert(a.len() == b.len()) by {
        assert(hex_of(a).len() == 2 * a.len());
        assert(hex_of(b).len() == 2 * b.len());
    }
    assert forall|i: int| 0 <= i < a.len() implies a[i] == b[i] by {
        let hi_a = hex_of(a)[2 * i];
        let lo_a = hex_of(a)[2 * i + 1];
        assert(hi_a == hex_of(b)[2 * i]);
        assert(lo_a == hex_of(b)[2 * i + 1]);
        assert((2 * i) / 2 == i && (2 * i + 1) / 2 == i && (2 * i) % 2 == 0 && (2 * i + 1) % 2 == 1);
        lemma_hex_digit_injective((a[i] / 16) as int, (b[i] / 16) as int);
        lemma_hex_digit_injective((a[i] % 16) as int, (b[i] % 16) as int);
    }
    assert(a =~= b);
}

/// Hex digits of distinct values below 16 differ.
pub proof fn lemma_hex_digit_injective(x: int, y: int)
    requires
        0 <= x < 16,
        0 <= y < 16,
        hex_digit(x) == hex_digit(y),
    ensures
        x == y,
{
}

/// Append all of `s`.
pub fn push_all(v: &mut Vec<u8>, s: &[u8])
    ensures
        final(v)@ == old(v)@ + s@,
{
    let mut i: usize = 0;
    while i < s.len()
        invariant
            i <= s@.len(),
            v@ == old(v)@ + s@.subrange(0, i as int),
        decreases s@.len() - i,
    {
        v.push(s[i]);
        proof {
            assert(s@.subrange(0, i + 1) =~= s@.subrange(0, i as int).push(s@[i as int]));
        }
        i = i + 1;
    }
    proof {
        assert(s@.subrange(0, s@.len() as int) =~= s@);
    }
}

/// Append a byte string with its length first, as eight little-endian bytes.
pub fn push_len_prefixed(v: &mut Vec<u8>, s: &[u8])
    ensures
        final(v)@ == old(v)@ + le_bytes(s@.len(), 8) + s@,
{
    push_le(v, s.len() as u128, 8);
    push_all(v, s);
    proof {
        assert(final(v)@ =~= old(v)@ + le_bytes(s@.len(), 8) + s@);
    }
}

/// The `n` low bytes of `x`, most significant first.
pub open spec fn be_bytes(x: nat, n: nat) -> Seq<u8>
    decreases n,
{
    if n == 0 {
        Seq::empty()
    } else {
        be_bytes(x / 256, (n - 1) as nat).push((x % 256) as u8)
    }
}

/// Append the `n` low bytes of `x`, most significant first.
pub fn push_be(v: &mut Vec<u8>, x: u128, n: usize)
    ensures
        final(v)@ == old(v)@ + be_bytes(x as nat, n as nat),
    decreases n,
{
    if n > 0 {
        push_be(v, x / 256, n - 1);
        v.push((x % 256) as u8);
        proof {
            assert(final(v)@ =~= old(v)@ + be_bytes(x as nat, n as nat));
        }
    } else {
        proof {
            assert(v@ =~= old(v)@ + be_bytes(x as nat, n as nat));
        }
    }
}

} // verus!
