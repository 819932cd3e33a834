use vstd::prelude::*;

verus! {

/// Reflected IEEE 802.3 polynomial.
pub const CRC32_POLY: u32 = 0xEDB8_8320;

/// One bit step of the reflected CRC-32 division: shift right, and add
/// the polynomial when the bit shifted out was set.
pub open spec fn crc_bit_step(c: u32) -> u32 {
    if c & 1 != 0 {
        (c >> 1) ^ 0xEDB8_8320u32
    } else {
        c >> 1
    }
}

/// `n` bit steps applied to `c`.
pub open spec fn crc_bit_steps(c: u32, n: nat) -> u32
    decreases n,
{
    if n == 0 {
        c
    } else {
        crc_bit_step(crc_bit_steps(c, (n - 1) as nat))
    }
}

/// Eight bit steps, written out: the reduction of one byte.
pub open spec fn crc_byte_step(c: u32) -> u32 {
    crc_bit_step(
        crc_bit_step(
            crc_bit_step(
                crc_bit_step(crc_bit_step(crc_bit_step(crc_bit_step(crc_bit_step(c))))),
            ),
        ),
    )
}

/// The CRC register after feeding `data`, bit by bit, into a register that
/// starts at all ones (each byte is xored into the low bits, then reduced).
pub open spec fn crc_register(data: Seq<u8>) -> u32
    decreases data.len(),
{
    if data.len() == 0 {
        0xFFFF_FFFFu32
    } else {
        crc_byte_step(crc_register(data.drop_last()) ^ (data.last() as u32))
    }
}

/// The IEEE CRC-32 of `data`: the final register, complemented.
pub open spec fn spec_crc32(data: Seq<u8>) -> u32 {
    crc_register(data) ^ 0xFFFF_FFFFu32
}

/// Eight applications of the bit step are the byte step.
pub proof fn lemma_bit_steps_8(c: u32)
    ensures
        crc_bit_steps(c, 8) == crc_byte_step(c),
{
    reveal_with_fuel(crc_bit_steps, 9);
}

/// The table-driven update agrees with the bitwise one: reducing
/// `crc ^ b` bit by bit equals shifting the register by a byte and xoring
/// the reduction of its low byte.
pub proof fn lemma_table_update(crc: u32, b: u8)
    ensures
        (crc >> 8u32) ^ crc_byte_step((crc ^ (b as u32)) & 0xFFu32) == crc_byte_step(
            crc ^ (b as u32),
        ),
{
    let x: u32 = crc ^ (b as u32);
    assert((x >> 8u32) == (crc >> 8u32)) by (bit_vector)
        requires
            x == crc ^ (b as u32),
            b < 256,
    ;
    assert((x >> 8u32) ^ crc_byte_step(x & 0xFFu32) == crc_byte_step(x)) by (bit_vector);
}

/// The byte-wise xor of three sequences of equal length.
pub open spec fn xor3(a: Seq<u8>, b: Seq<u8>, c: Seq<u8>) -> Seq<u8> {
    Seq::new(a.len(), |i: int| a[i] ^ b[i] ^ c[i])
}

/// The four bytes of `c`, least significant first.
pub open spec fn le_bytes(c: u32) -> Seq<u8> {
    seq![
        (c % 256) as u8,
        ((c / 256) % 256) as u8,
        ((c / 65536) % 256) as u8,
        (c / 16777216) as u8,
    ]
}

/// The bit steps are linear over GF(2): they distribute over xor.
proof fn lemma_bit_steps_xor3(p: u32, q: u32, r: u32, n: nat)
    ensures
        crc_bit_steps(p ^ q ^ r, n) == crc_bit_steps(p, n) ^ crc_bit_steps(q, n) ^ crc_bit_steps(
            r,
            n,
        ),
    decreases n,
{
    if n > 0 {
        lemma_bit_steps_xor3(p, q, r, (n - 1) as nat);
        let x = crc_bit_steps(p, (n - 1) as nat);
        let y = crc_bit_steps(q, (n - 1) as nat);
        let z = crc_bit_steps(r, (n - 1) as nat);
        assert(crc_bit_step(x ^ y ^ z) == crc_bit_step(x) ^ crc_bit_step(y) ^ crc_bit_step(z))
            by (bit_vector);
    }
}

/// The bit steps are injective.
proof fn lemma_bit_steps_injective(p: u32, q: u32, n: nat)
    requires
        p != q,
    ensures
        crc_bit_steps(p, n) != crc_bit_steps(q, n),
    decreases n,
{
    if n > 0 {
        lemma_bit_steps_injective(p, q, (n - 1) as nat);
        let x = crc_bit_steps(p, (n - 1) as nat);
        let y = crc_bit_steps(q, (n - 1) as nat);
        assert(x != y ==> crc_bit_step(x) != crc_bit_step(y)) by (bit_vector);
    }
}

/// The CRC register of the xor of three sequences of equal length is the
/// xor of their registers.
proof fn lemma_register_xor3(a: Seq<u8>, b: Seq<u8>, c: Seq<u8>)
    requires
        a.len() == b.len() == c.len(),
    ensures
        crc_register(xor3(a, b, c)) == crc_register(a) ^ crc_register(b) ^ crc_register(c),
    decreases a.len(),
{
    let x = xor3(a, b, c);
    if a.len() == 0 {
        assert(0xFFFF_FFFFu32 == 0xFFFF_FFFFu32 ^ 0xFFFF_FFFFu32 ^ 0xFFFF_FFFFu32) by (bit_vector);
    } else {
        let (a1, b1, c1) = (a.drop_last(), b.drop_last(), c.drop_last());
        assert(x.drop_last() =~= xor3(a1, b1, c1));
        lemma_register_xor3(a1, b1, c1);
        let (ra, rb, rc) = (crc_register(a1), crc_register(b1), crc_register(c1));
        let (la, lb, lc) = (a.last(), b.last(), c.last());
        assert(x.last() == la ^ lb ^ lc);
        assert((ra ^ rb ^ rc) ^ ((la ^ lb ^ lc) as u32) == (ra ^ (la as u32)) ^ (rb ^ (
        lb as u32)) ^ (rc ^ (lc as u32))) by (bit_vector);
        lemma_bit_steps_xor3(ra ^ (la as u32), rb ^ (lb as u32), rc ^ (lc as u32), 8);
        lemma_bit_steps_8(ra ^ (la as u32));
        lemma_bit_steps_8(rb ^ (lb as u32));
        lemma_bit_steps_8(rc ^ (lc as u32));
        lemma_bit_steps_8((ra ^ (la as u32)) ^ (rb ^ (lb as u32)) ^ (rc ^ (lc as u32)));
    }
}

/// CRC-32 is affine over GF(2) for a fixed length: the CRC of the xor of
/// three sequences of equal length is the xor of their CRCs.
pub proof fn lemma_crc32_affine(a: Seq<u8>, b: Seq<u8>, c: Seq<u8>)
    requires
        a.len() == b.len() == c.len(),
    ensures
        spec_crc32(xor3(a, b, c)) == spec_crc32(a) ^ spec_crc32(b) ^ spec_crc32(c),
{
    lemma_register_xor3(a, b, c);
    let (ra, rb, rc) = (crc_register(a), crc_register(b), crc_register(c));
    assert((ra ^ rb ^ rc) ^ 0xFFFF_FFFFu32 == (ra ^ 0xFFFF_FFFFu32) ^ (rb ^ 0xFFFF_FFFFu32) ^ (rc
        ^ 0xFFFF_FFFFu32)) by (bit_vector);
}

/// Two sequences of equal length that differ in exactly one byte (in
/// particular, in exactly one bit) have different CRC-32s: every error
/// confined to one byte of an image is detected.
pub proof fn lemma_crc32_detects_one_byte_error(a: Seq<u8>, b: Seq<u8>, i: int)
    requires
        a.len() == b.len(),
        0 <= i < a.len(),
        a[i] != b[i],
        forall|j: int| 0 <= j < a.len() && j != i ==> a[j] == b[j],
    ensures
        spec_crc32(a) != spec_crc32(b),
{
    lemma_register_differs(a, b, i);
    let (ra, rb) = (crc_register(a), crc_register(b));
    assert(ra != rb ==> ra ^ 0xFFFF_FFFFu32 != rb ^ 0xFFFF_FFFFu32) by (bit_vector);
}

/// The registers of two sequences that differ in exactly one byte differ.
proof fn lemma_register_differs(a: Seq<u8>, b: Seq<u8>, i: int)
    requires
        a.len() == b.len(),
        0 <= i < a.len(),
        a[i] != b[i],
        forall|j: int| 0 <= j < a.len() && j != i ==> a[j] == b[j],
    ensures
        crc_register(a) != crc_register(b),
    decreases a.len(),
{
    let (a1, b1) = (a.drop_last(), b.drop_last());
    let (la, lb) = (a.last(), b.last());
    if i == a.len() - 1 {
        assert(a1 =~= b1);
        let r = crc_register(a1);
        assert(la != lb ==> r ^ (la as u32) != r ^ (lb as u32)) by (bit_vector);
        lemma_bit_steps_injective(r ^ (la as u32), r ^ (lb as u32), 8);
    } else {
        lemma_register_differs(a1, b1, i);
        let (ra, rb) = (crc_register(a1), crc_register(b1));
        assert(la == lb);
        assert(ra != rb ==> ra ^ (la as u32) != rb ^ (la as u32)) by (bit_vector);
        lemma_bit_steps_injective(ra ^ (la as u32), rb ^ (la as u32), 8);
    }
    lemma_bit_steps_8(crc_register(a1) ^ (la as u32));
    lemma_bit_steps_8(crc_register(b1) ^ (lb as u32));
}

/// The CRC-32 residue: appending to any data its CRC-32, least significant
/// byte first, gives the constant CRC `0x2144DF1C`.
pub proof fn lemma_crc32_residue(d: Seq<u8>)
    ensures
        spec_crc32(d + le_bytes(spec_crc32(d))) == 0x2144_DF1Cu32,
{
    let r = crc_register(d);
    let c = r ^ 0xFFFF_FFFFu32;
    let le = le_bytes(c);
    let d1 = d.push(le[0]);
    let d2 = d1.push(le[1]);
    let d3 = d2.push(le[2]);
    let d4 = d3.push(le[3]);
    assert(d + le =~= d4);
    assert(d1.drop_last() =~= d);
    assert(d2.drop_last() =~= d1);
    assert(d3.drop_last() =~= d2);
    assert(d4.drop_last() =~= d3);
    let b0 = (c % 256) as u8;
    let b1 = ((c / 256) % 256) as u8;
    let b2 = ((c / 65536) % 256) as u8;
    let b3 = (c / 16777216) as u8;
    assert(c % 256 == c & 0xFFu32 && (c / 256) % 256 == (c >> 8u32) & 0xFFu32 && (c / 65536)
        % 256 == (c >> 16u32) & 0xFFu32 && c / 16777216 == c >> 24u32) by (bit_vector);
    assert(b0 as u32 == c % 256 && b1 as u32 == (c / 256) % 256 && b2 as u32 == (c / 65536) % 256
        && b3 as u32 == c / 16777216);
    let r1 = crc_byte_step(r ^ (c & 0xFFu32));
    let r2 = crc_byte_step(r1 ^ ((c >> 8u32) & 0xFFu32));
    let r3 = crc_byte_step(r2 ^ ((c >> 16u32) & 0xFFu32));
    let r4 = crc_byte_step(r3 ^ (c >> 24u32));
    assert(le[0] == b0 && le[1] == b1 && le[2] == b2 && le[3] == b3);
    assert(crc_register(d1) == r1);
    assert(crc_register(d2) == r2);
    assert(crc_register(d3) == r3);
    assert(crc_register(d4) == r4);
    assert(r4 ^ 0xFFFF_FFFFu32 == 0x2144_DF1Cu32) by (bit_vector)
        requires
            c == r ^ 0xFFFF_FFFFu32,
            r1 == crc_byte_step(r ^ (c & 0xFFu32)),
            r2 == crc_byte_step(r1 ^ ((c >> 8u32) & 0xFFu32)),
            r3 == crc_byte_step(r2 ^ ((c >> 16u32) & 0xFFu32)),
            r4 == crc_byte_step(r3 ^ (c >> 24u32)),
    ;
}

/// Builds the 256-entry lookup table of the byte reduction: entry `i` is
/// `i` reduced by eight bit steps of the reflected polynomial.
pub fn make_crc32_table() -> (table: Vec<u32>)
    ensures
        table@.len() == 256,
        forall|k: int| 0 <= k < 256 ==> #[trigger] table@[k] == crc_byte_step(k as u32),
{
    let mut table: Vec<u32> = Vec::new();
    let mut i: usize = 0;
    while i < 256
        invariant
            i <= 256,
            table@.len() == i,
            forall|k: int| 0 <= k < i ==> #[trigger] table@[k] == crc_byte_step(k as u32),
        decreases 256 - i,
    {
        let mut crc: u32 = i as u32;
        let mut j: u32 = 0;
        while j < 8
            invariant
                j <= 8,
                i < 256,
                crc == crc_bit_steps(i as u32, j as nat),
            decreases 8 - j,
        {
            if crc & 1 != 0 {
                crc = (crc >> 1) ^ CRC32_POLY;
            } else {
                crc = crc >> 1;
            }
            j += 1;
        }
        proof {
            lemma_bit_steps_8(i as u32);
        }
        table.push(crc);
        i += 1;
    }
    table
}

/// Computes the IEEE CRC-32 of `data` (polynomial 0xEDB88320, initial
/// value and final xor 0xFFFFFFFF).
pub fn crc32(data: &[u8]) -> (r: u32)
    ensures
        r == spec_crc32(data@),
{
    let table = make_crc32_table();
    let mut crc: u32 = 0xFFFF_FFFF;
    let mut i: usize = 0;
    while i < data.len()
        invariant
            table@.len() == 256,
            forall|k: int| 0 <= k < 256 ==> #[trigger] table@[k] == crc_byte_step(k as u32),
            i <= data@.len(),
            crc == crc_register(data@.take(i as int)),
        decreases data@.len() - i,
    {
        let byte = data[i];
        let x: u32 = crc ^ (byte as u32);
        let low: u32 = x & 0xFF;
        assert(x & 0xFFu32 < 256) by (bit_vector);
        let index = low as usize;
        proof {
            lemma_table_update(crc, byte);
            assert(data@.take(i + 1).drop_last() =~= data@.take(i as int));
            assert(table@[index as int] == crc_byte_step(low));
        }
        crc = (crc >> 8) ^ table[index];
        i += 1;
    }
    proof {
        assert(data@.take(data@.len() as int) =~= data@);
    }
    crc ^ 0xFFFF_FFFF
}

} // verus!
