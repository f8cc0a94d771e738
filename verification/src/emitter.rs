//! PVM blob emitter: the standard program format and the inner code blob
//! ("deblob") format of the Gray Paper, appendix A.

use vstd::prelude::*;
use vstd::arithmetic::div_mod::lemma_div_denominator;

verus! {

/// Whether the one-byte-per-bit mask marks position `i` (any non-zero byte is a set bit).
pub open spec fn mask_bit(bitmask: Seq<u8>, i: int) -> bool {
    0 <= i < bitmask.len() && bitmask[i] != 0
}

/// Bit `k` (counted from the least significant bit) of a byte.
pub open spec fn byte_bit(b: u8, k: u8) -> bool {
    (b >> k) & 1u8 == 1u8
}

/// Number of bytes needed to hold `n` bits.
pub open spec fn packed_byte_count(n: int) -> int {
    (n + 7) / 8
}

/// `1` where the mask marks position `i`, `0` elsewhere (also beyond its end).
pub open spec fn mask_bit_value(bitmask: Seq<u8>, i: int) -> u8 {
    if mask_bit(bitmask, i) { 1u8 } else { 0u8 }
}

/// Byte `j` of the packed mask: bit `k` of it is mask position `8 * j + k`.
pub open spec fn packed_byte(bitmask: Seq<u8>, j: int) -> u8 {
    mask_bit_value(bitmask, 8 * j)
    | (mask_bit_value(bitmask, 8 * j + 1) << 1u8)
    | (mask_bit_value(bitmask, 8 * j + 2) << 2u8)
    | (mask_bit_value(bitmask, 8 * j + 3) << 3u8)
    | (mask_bit_value(bitmask, 8 * j + 4) << 4u8)
    | (mask_bit_value(bitmask, 8 * j + 5) << 5u8)
    | (mask_bit_value(bitmask, 8 * j + 6) << 6u8)
    | (mask_bit_value(bitmask, 8 * j + 7) << 7u8)
}

/// The packed form of a one-byte-per-bit mask (Gray Paper eq. C.9, LSB first).
pub open spec fn packed_mask(bitmask: Seq<u8>) -> Seq<u8> {
    Seq::new(packed_byte_count(bitmask.len() as int) as nat, |j: int| packed_byte(bitmask, j))
}

/// Two bytes with the same eight bits are equal.
proof fn lemma_bytes_equal_by_bits(a: u8, b: u8)
    requires
        forall|k: u8| k < 8 ==> byte_bit(a, k) == byte_bit(b, k),
    ensures
        a == b,
{
    assert(byte_bit(a, 0) == byte_bit(b, 0));
    assert(byte_bit(a, 1) == byte_bit(b, 1));
    assert(byte_bit(a, 2) == byte_bit(b, 2));
    assert(byte_bit(a, 3) == byte_bit(b, 3));
    assert(byte_bit(a, 4) == byte_bit(b, 4));
    assert(byte_bit(a, 5) == byte_bit(b, 5));
    assert(byte_bit(a, 6) == byte_bit(b, 6));
    assert(byte_bit(a, 7) == byte_bit(b, 7));
    assert(
        (((a >> 0u8) & 1u8 == 1u8) == ((b >> 0u8) & 1u8 == 1u8))
        && (((a >> 1u8) & 1u8 == 1u8) == ((b >> 1u8) & 1u8 == 1u8))
        && (((a >> 2u8) & 1u8 == 1u8) == ((b >> 2u8) & 1u8 == 1u8))
        && (((a >> 3u8) & 1u8 == 1u8) == ((b >> 3u8) & 1u8 == 1u8))
        && (((a >> 4u8) & 1u8 == 1u8) == ((b >> 4u8) & 1u8 == 1u8))
        && (((a >> 5u8) & 1u8 == 1u8) == ((b >> 5u8) & 1u8 == 1u8))
        && (((a >> 6u8) & 1u8 == 1u8) == ((b >> 6u8) & 1u8 == 1u8))
        && (((a >> 7u8) & 1u8 == 1u8) == ((b >> 7u8) & 1u8 == 1u8))
        ==> a == b
    ) by (bit_vector);
}

/// Bit `k` of a packed byte is mask position `8 * j + k`.
proof fn lemma_packed_byte_bits(bitmask: Seq<u8>, j: int)
    ensures
        forall|k: u8| k < 8 ==> byte_bit(packed_byte(bitmask, j), k) == mask_bit(bitmask, 8 * j + k),
{
    let v0 = mask_bit_value(bitmask, 8 * j);
    let v1 = mask_bit_value(bitmask, 8 * j + 1);
    let v2 = mask_bit_value(bitmask, 8 * j + 2);
    let v3 = mask_bit_value(bitmask, 8 * j + 3);
    let v4 = mask_bit_value(bitmask, 8 * j + 4);
    let v5 = mask_bit_value(bitmask, 8 * j + 5);
    let v6 = mask_bit_value(bitmask, 8 * j + 6);
    let v7 = mask_bit_value(bitmask, 8 * j + 7);
    let p = packed_byte(bitmask, j);
    assert(
        v0 <= 1 && v1 <= 1 && v2 <= 1 && v3 <= 1 && v4 <= 1 && v5 <= 1 && v6 <= 1 && v7 <= 1
        && p == v0 | (v1 << 1u8) | (v2 << 2u8) | (v3 << 3u8) | (v4 << 4u8) | (v5 << 5u8)
            | (v6 << 6u8) | (v7 << 7u8)
        ==> ((p >> 0u8) & 1u8 == v0) && ((p >> 1u8) & 1u8 == v1) && ((p >> 2u8) & 1u8 == v2)
            && ((p >> 3u8) & 1u8 == v3) && ((p >> 4u8) & 1u8 == v4) && ((p >> 5u8) & 1u8 == v5)
            && ((p >> 6u8) & 1u8 == v6) && ((p >> 7u8) & 1u8 == v7)
    ) by (bit_vector);
    assert(8 * j + 0 == 8 * j);
}

/// Setting bit `k` of a byte sets that bit and leaves the other seven alone.
proof fn lemma_set_bit(b: u8, k: u8, m: u8)
    requires
        k < 8,
        m < 8,
    ensures
        byte_bit(b | (1u8 << k), m) == (m == k || byte_bit(b, m)),
{
    let c = b | (1u8 << k);
    assert(((c >> m) & 1u8 == 1u8) == (m == k || (b >> m) & 1u8 == 1u8)) by (bit_vector)
        requires
            m < 8,
            k < 8,
            c == b | (1u8 << k),
    ;
}

/// Pack a bitmask array (one byte per bit, 0 or 1) into packed bytes (LSB first):
/// bit `i` is at byte `i / 8`, position `i % 8`, and the padding bits of the last
/// byte are clear.
pub fn pack_bitmask(bitmask: &[u8]) -> (packed: Vec<u8>)
    ensures
        packed@ == packed_mask(bitmask@),
{
    let n = bitmask.len();
    let packed_len: usize = n / 8 + if n % 8 != 0 { 1 } else { 0 };
    let mut packed: Vec<u8> = vec![0u8; packed_len];
    proof {
        assert(packed_len == packed_byte_count(n as int));
        assert forall|j: int| 0 <= j < packed_len implies packed@[j] == 0u8 by {}
        assert forall|k: u8| k < 8 implies !byte_bit(0u8, k) by {
            assert(k < 8 ==> ((0u8 >> k) & 1u8) != 1u8) by (bit_vector);
        }
    }
    let mut i: usize = 0;
    while i < n
        invariant
            n == bitmask@.len(),
            i <= n,
            packed@.len() == packed_len,
            packed_len == packed_byte_count(n as int),
            forall|q: int, k: u8| 0 <= q < packed_len && k < 8 ==>
                #[trigger] byte_bit(packed@[q], k) == (8 * q + k < i && mask_bit(bitmask@, 8 * q + k)),
        decreases n - i,
    {
        if bitmask[i] != 0 {
            let j: usize = i / 8;
            let k: u8 = (i % 8) as u8;
            let old_byte = packed[j];
            let ghost before = packed@;
            packed.set(j, old_byte | (1u8 << k));
            proof {
                assert forall|q: int, m: u8| 0 <= q < packed_len && m < 8 implies
                    #[trigger] byte_bit(packed@[q], m) == (8 * q + m < i + 1 && mask_bit(bitmask@, 8 * q + m)) by {
                    if q == j {
                        lemma_set_bit(old_byte, k, m);
                    } else {
                        assert(packed@[q] == before[q]);
                        assert(8 * q + m != i);
                    }
                }
            }
        } else {
            proof {
                assert forall|q: int, m: u8| 0 <= q < packed_len && m < 8 implies
                    #[trigger] byte_bit(packed@[q], m) == (8 * q + m < i + 1 && mask_bit(bitmask@, 8 * q + m)) by {
                    if 8 * q + m == i {
                        assert(!mask_bit(bitmask@, i as int));
                    }
                }
            }
        }
        i = i + 1;
    }
    proof {
        assert forall|j: int| 0 <= j < packed_len implies packed@[j] == #[trigger] packed_byte(bitmask@, j) by {
            lemma_packed_byte_bits(bitmask@, j);
            assert forall|k: u8| k < 8 implies byte_bit(packed@[j], k) == byte_bit(packed_byte(bitmask@, j), k) by {
                assert(byte_bit(packed@[j], k) == (8 * j + k < n && mask_bit(bitmask@, 8 * j + k)));
            }
            lemma_bytes_equal_by_bits(packed@[j], packed_byte(bitmask@, j));
        }
        assert(packed@ =~= packed_mask(bitmask@));
    }
    packed
}

/// Bit `i` of the packed mask sits at byte `i / 8`, position `i % 8`, and is set
/// exactly when the mask marks position `i`; the padding bits past the mask are clear.
pub proof fn lemma_packed_mask_bit(bitmask: Seq<u8>, i: int)
    requires
        0 <= i < 8 * packed_mask(bitmask).len(),
    ensures
        byte_bit(packed_mask(bitmask)[i / 8], (i % 8) as u8) == mask_bit(bitmask, i),
{
    lemma_packed_byte_bits(bitmask, i / 8);
    assert(8 * (i / 8) + (i % 8) == i);
}

/// `256^e`.
pub open spec fn pow256(e: nat) -> int
    decreases e,
{
    if e == 0 {
        1
    } else {
        256 * pow256((e - 1) as nat)
    }
}

proof fn lemma_pow256_positive(e: nat)
    ensures
        pow256(e) > 0,
    decreases e,
{
    if e > 0 {
        lemma_pow256_positive((e - 1) as nat);
    }
}

/// The `width`-byte little-endian encoding of `value` (taken modulo `256^width`,
/// as a cast to a `width`-byte integer does).
pub open spec fn le_bytes(value: int, width: nat) -> Seq<u8> {
    Seq::new(width, |i: int| ((value / pow256(i as nat)) % 256) as u8)
}

/// Append the `width`-byte little-endian encoding of `value` to `out`.
fn push_le(out: &mut Vec<u8>, value: u64, width: usize)
    ensures
        final(out)@ == old(out)@ + le_bytes(value as int, width as nat),
{
    let mut rest: u64 = value;
    let mut k: usize = 0;
    proof {
        assert(old(out)@ =~= old(out)@ + le_bytes(value as int, 0));
    }
    while k < width
        invariant
            k <= width,
            rest as int == value as int / pow256(k as nat),
            out@ == old(out)@ + le_bytes(value as int, k as nat),
        decreases width - k,
    {
        let ghost before = out@;
        out.push((rest % 256) as u8);
        proof {
            lemma_pow256_positive(k as nat);
            lemma_div_denominator(value as int, pow256(k as nat), 256);
            assert(pow256(k as nat) * 256 == pow256((k + 1) as nat)) by (nonlinear_arith)
                requires pow256((k + 1) as nat) == 256 * pow256(k as nat);
            assert(out@ =~= old(out)@ + le_bytes(value as int, (k + 1) as nat));
        }
        rest = rest / 256;
        k = k + 1;
    }
}

/// Whether every jump-table entry is at most `bound`.
pub open spec fn entries_at_most(jump_table: Seq<u32>, bound: u32) -> bool {
    forall|i: int| 0 <= i < jump_table.len() ==> jump_table[i] <= bound
}

/// The byte width `z` of a jump-table entry: the smallest of 1..=4 that holds
/// every entry (1 for an empty table).
pub open spec fn entry_size(jump_table: Seq<u32>) -> u8 {
    if entries_at_most(jump_table, 0xFF) {
        1
    } else if entries_at_most(jump_table, 0xFFFF) {
        2
    } else if entries_at_most(jump_table, 0xFF_FFFF) {
        3
    } else {
        4
    }
}

/// The jump table, each entry as `z` little-endian bytes, in order.
pub open spec fn jump_entries(jump_table: Seq<u32>, z: nat) -> Seq<u8>
    decreases jump_table.len(),
{
    if jump_table.len() == 0 {
        seq![]
    } else {
        jump_entries(jump_table.drop_last(), z) + le_bytes(jump_table.last() as int, z)
    }
}

/// Code blob header: `E₄(|j|) ⌢ E₁(z) ⌢ E₄(|c|)`.
pub open spec fn code_blob_header(jump_len: int, z: u8, code_len: int) -> Seq<u8> {
    le_bytes(jump_len, 4) + seq![z] + le_bytes(code_len, 4)
}

/// The inner code blob (deblob format, Gray Paper eq. A.2):
/// `E₄(|j|) ⌢ E₁(z) ⌢ E₄(|c|) ⌢ E_z(j) ⌢ E(c) ⌢ packed_bitmask`.
pub open spec fn code_blob(code: Seq<u8>, bitmask: Seq<u8>, jump_table: Seq<u32>) -> Seq<u8> {
    let z = entry_size(jump_table);
    code_blob_header(jump_table.len() as int, z, code.len() as int)
        + jump_entries(jump_table, z as nat) + code + packed_mask(bitmask)
}

/// Program header: `E₃(|o|) ⌢ E₃(|w|) ⌢ E₂(z) ⌢ E₃(s)`.
pub open spec fn program_header(ro_len: int, rw_len: int, heap_pages: u16, stack_size: u32) -> Seq<u8> {
    le_bytes(ro_len, 3) + le_bytes(rw_len, 3) + le_bytes(heap_pages as int, 2)
        + le_bytes(stack_size as int, 3)
}

/// A complete standard program blob (Gray Paper eq. A.38):
/// `E₃(|o|) ⌢ E₃(|w|) ⌢ E₂(z) ⌢ E₃(s) ⌢ o ⌢ w ⌢ E₄(|c|) ⌢ code_blob`.
pub open spec fn standard_program(
    ro_data: Seq<u8>,
    rw_data: Seq<u8>,
    heap_pages: u16,
    stack_size: u32,
    code: Seq<u8>,
    bitmask: Seq<u8>,
    jump_table: Seq<u32>,
) -> Seq<u8> {
    let blob = code_blob(code, bitmask, jump_table);
    program_header(ro_data.len() as int, rw_data.len() as int, heap_pages, stack_size) + ro_data
        + rw_data + le_bytes(blob.len() as int, 4) + blob
}

/// The largest entry of a non-empty jump table and an index holding it.
fn jump_table_max(jump_table: &[u32]) -> (r: (u32, usize))
    requires
        jump_table@.len() > 0,
    ensures
        r.1 < jump_table@.len(),
        jump_table@[r.1 as int] == r.0,
        entries_at_most(jump_table@, r.0),
{
    let mut max_val: u32 = jump_table[0];
    let mut at: usize = 0;
    let mut i: usize = 1;
    while i < jump_table.len()
        invariant
            1 <= i <= jump_table@.len(),
            at < i,
            jump_table@[at as int] == max_val,
            forall|j: int| 0 <= j < i ==> jump_table@[j] <= max_val,
        decreases jump_table@.len() - i,
    {
        if jump_table[i] > max_val {
            max_val = jump_table[i];
            at = i;
        }
        i = i + 1;
    }
    (max_val, at)
}

/// Append `bytes` to `out`.
fn push_all(out: &mut Vec<u8>, bytes: &[u8])
    ensures
        final(out)@ == old(out)@ + bytes@,
{
    let mut i: usize = 0;
    while i < bytes.len()
        invariant
            i <= bytes@.len(),
            out@ == old(out)@ + bytes@.subrange(0, i as int),
        decreases bytes@.len() - i,
    {
        out.push(bytes[i]);
        proof {
            assert(bytes@.subrange(0, i + 1) =~= bytes@.subrange(0, i as int).push(bytes@[i as int]));
        }
        i = i + 1;
    }
    proof {
        assert(bytes@.subrange(0, bytes@.len() as int) =~= bytes@);
    }
}

/// Build the inner code blob (deblob format, Gray Paper eq. A.2):
/// `E₄(|j|) ⌢ E₁(z) ⌢ E₄(|c|) ⌢ E_z(j) ⌢ E(c) ⌢ packed_bitmask`.
///
/// The code and its bitmask must have the same length.
pub fn build_code_blob(code: &[u8], bitmask: &[u8], jump_table: &[u32]) -> (blob: Vec<u8>)
    requires
        code@.len() == bitmask@.len(),
    ensures
        blob@ == code_blob(code@, bitmask@, jump_table@),
{
    // Jump table entry encoding size (z).
    let z: u8 = if jump_table.len() == 0 {
        1
    } else {
        let (max_val, at) = jump_table_max(jump_table);
        if max_val <= 0xFF {
            1
        } else if max_val <= 0xFFFF {
            2
        } else if max_val <= 0xFF_FFFF {
            3
        } else {
            4
        }
    };
    assert(z == entry_size(jump_table@));

    let mut blob: Vec<u8> = Vec::new();
    push_le(&mut blob, jump_table.len() as u64, 4);
    blob.push(z);
    push_le(&mut blob, code.len() as u64, 4);
    let ghost header = blob@;
    assert(header =~= code_blob_header(jump_table@.len() as int, z, code@.len() as int));

    // E_z(j): jump table entries, z bytes each, little endian.
    let mut i: usize = 0;
    while i < jump_table.len()
        invariant
            i <= jump_table@.len(),
            blob@ == header + jump_entries(jump_table@.subrange(0, i as int), z as nat),
        decreases jump_table@.len() - i,
    {
        push_le(&mut blob, jump_table[i] as u64, z as usize);
        proof {
            let next = jump_table@.subrange(0, i + 1);
            assert(next.drop_last() =~= jump_table@.subrange(0, i as int));
        }
        i = i + 1;
    }
    proof {
        assert(jump_table@.subrange(0, jump_table@.len() as int) =~= jump_table@);
    }

    // E(c): code bytes.
    push_all(&mut blob, code);

    // Packed bitmask.
    let packed = pack_bitmask(bitmask);
    push_all(&mut blob, packed.as_slice());
    proof {
        assert(blob@ =~= code_blob(code@, bitmask@, jump_table@));
    }
    blob
}

/// Build a complete standard program blob (Gray Paper eq. A.38):
/// `E₃(|o|) ⌢ E₃(|w|) ⌢ E₂(z) ⌢ E₃(s) ⌢ o ⌢ w ⌢ E₄(|c|) ⌢ code_blob`.
///
/// The read-only size, read-write size and stack size are 24-bit fields.
pub fn build_standard_program(
    ro_data: &[u8],
    rw_data: &[u8],
    heap_pages: u16,
    stack_size: u32,
    code: &[u8],
    bitmask: &[u8],
    jump_table: &[u32],
) -> (program: Vec<u8>)
    requires
        ro_data@.len() < 0x100_0000,
        rw_data@.len() < 0x100_0000,
        stack_size < 0x100_0000,
        code@.len() == bitmask@.len(),
    ensures
        program@ == standard_program(
            ro_data@,
            rw_data@,
            heap_pages,
            stack_size,
            code@,
            bitmask@,
            jump_table@,
        ),
{
    let code_blob = build_code_blob(code, bitmask, jump_table);

    let mut program: Vec<u8> = Vec::new();
    push_le(&mut program, ro_data.len() as u64, 3);
    push_le(&mut program, rw_data.len() as u64, 3);
    push_le(&mut program, heap_pages as u64, 2);
    push_le(&mut program, stack_size as u64, 3);

    // o: read-only data; w: read-write data.
    push_all(&mut program, ro_data);
    push_all(&mut program, rw_data);

    // E₄(|c|): code blob length (4 bytes, little endian), then the code blob.
    push_le(&mut program, code_blob.len() as u64, 4);
    push_all(&mut program, code_blob.as_slice());
    proof {
        assert(program@ =~= standard_program(
            ro_data@,
            rw_data@,
            heap_pages,
            stack_size,
            code@,
            bitmask@,
            jump_table@,
        ));
    }
    program
}

/// The number a little-endian byte string encodes.
pub open spec fn le_value(bytes: Seq<u8>) -> int
    decreases bytes.len(),
{
    if bytes.len() == 0 {
        0
    } else {
        bytes[0] + 256 * le_value(bytes.drop_first())
    }
}

/// Decoding a little-endian encoding gives back the value, when it fits the width.
pub proof fn lemma_le_roundtrip(value: int, width: nat)
    requires
        0 <= value < pow256(width),
    ensures
        le_value(le_bytes(value, width)) == value,
    decreases width,
{
    if width == 0 {
        assert(value == 0);
    } else {
        let w1 = (width - 1) as nat;
        let rest = value / 256;
        assert(le_bytes(value, width).drop_first() =~= le_bytes(rest, w1)) by {
            assert forall|i: int| 0 <= i < w1 implies #[trigger] le_bytes(value, width).drop_first()[i]
                == le_bytes(rest, w1)[i] by {
                lemma_pow256_positive(i as nat);
                lemma_div_denominator(value, 256, pow256(i as nat));
                assert(256 * pow256(i as nat) == pow256((i + 1) as nat));
            }
        }
        assert(rest < pow256(w1)) by {
            lemma_pow256_positive(w1);
        }
        lemma_le_roundtrip(rest, w1);
        assert(le_bytes(value, width)[0] == value % 256);
    }
}

/// The jump-table section has `z` bytes per entry.
proof fn lemma_jump_entries_len(jump_table: Seq<u32>, z: nat)
    ensures
        jump_entries(jump_table, z).len() == jump_table.len() * z,
    decreases jump_table.len(),
{
    if jump_table.len() > 0 {
        lemma_jump_entries_len(jump_table.drop_last(), z);
        let n = jump_table.len() as int;
        assert((n - 1) * z + z == n * z) by (nonlinear_arith);
    }
}

/// Entry `i` of the jump table occupies bytes `i·z .. i·z + z` of its section.
proof fn lemma_jump_entry_at(jump_table: Seq<u32>, z: nat, i: int)
    requires
        0 <= i < jump_table.len(),
    ensures
        0 <= i * z,
        i * z + z <= jump_entries(jump_table, z).len(),
        jump_entries(jump_table, z).subrange(i * z, i * z + z) == le_bytes(jump_table[i] as int, z),
    decreases jump_table.len(),
{
    let n = jump_table.len() as int;
    let prefix = jump_table.drop_last();
    lemma_jump_entries_len(jump_table, z);
    lemma_jump_entries_len(prefix, z);
    assert(0 <= i * z) by (nonlinear_arith) requires 0 <= i;
    assert(i * z + z <= n * z) by (nonlinear_arith) requires i < n;
    let whole = jump_entries(jump_table, z);
    let head = jump_entries(prefix, z);
    assert(whole == head + le_bytes(jump_table.last() as int, z));
    if i == n - 1 {
        assert((n - 1) * z == head.len());
        assert(whole.subrange(i * z, i * z + z) =~= le_bytes(jump_table[i] as int, z));
    } else {
        lemma_jump_entry_at(prefix, z, i);
        assert(i * z + z <= head.len());
        assert(whole.subrange(i * z, i * z + z) =~= head.subrange(i * z, i * z + z));
    }
}

/// Every entry fits in `entry_size` bytes.
proof fn lemma_entries_fit(jump_table: Seq<u32>, i: int)
    requires
        0 <= i < jump_table.len(),
    ensures
        jump_table[i] < pow256(entry_size(jump_table) as nat),
{
    reveal_with_fuel(pow256, 5);
}

/// The parts of a code blob, as a reader recovers them: the jump table, the code,
/// and one mask bit per code byte.
pub struct CodeBlobParts {
    pub jump_table: Seq<int>,
    pub code: Seq<u8>,
    pub mask: Seq<bool>,
}

/// Read a code blob: the header, `|j|` entries of `z ∈ 1..=4` bytes each, `|c|`
/// code bytes, and `⌈|c|/8⌉` bytes of packed mask, with nothing after them.
pub open spec fn parse_code_blob(blob: Seq<u8>) -> Option<CodeBlobParts> {
    if blob.len() < 9 {
        None
    } else {
        let jump_len = le_value(blob.subrange(0, 4));
        let z = blob[4] as int;
        let code_len = le_value(blob.subrange(5, 9));
        let code_start = 9 + jump_len * z;
        let mask_start = code_start + code_len;
        if 1 <= z <= 4 && mask_start + (code_len + 7) / 8 == blob.len() {
            Some(
                CodeBlobParts {
                    jump_table: Seq::new(
                        jump_len as nat,
                        |i: int| le_value(blob.subrange(9 + i * z, 9 + i * z + z)),
                    ),
                    code: blob.subrange(code_start, mask_start),
                    mask: Seq::new(
                        code_len as nat,
                        |i: int| byte_bit(blob[mask_start + i / 8], (i % 8) as u8),
                    ),
                },
            )
        } else {
            None
        }
    }
}

/// What reading the code blob of `code`, `bitmask` and `jump_table` should give back.
pub open spec fn code_blob_parts(code: Seq<u8>, bitmask: Seq<u8>, jump_table: Seq<u32>) -> CodeBlobParts {
    CodeBlobParts {
        jump_table: Seq::new(jump_table.len(), |i: int| jump_table[i] as int),
        code: code,
        mask: Seq::new(code.len(), |i: int| bitmask[i] != 0),
    }
}

/// A code blob reads back as the jump table, the code and the mask it was built
/// from (as long as the jump table and the code have fewer than 2³² entries, so
/// that their 4-byte lengths do not wrap).
pub proof fn lemma_code_blob_roundtrip(code: Seq<u8>, bitmask: Seq<u8>, jump_table: Seq<u32>)
    requires
        code.len() == bitmask.len(),
        jump_table.len() < 0x1_0000_0000,
        code.len() < 0x1_0000_0000,
    ensures
        parse_code_blob(code_blob(code, bitmask, jump_table)) == Some(code_blob_parts(code, bitmask, jump_table)),
{
    reveal_with_fuel(pow256, 5);
    let z = entry_size(jump_table);
    let zn = z as nat;
    let n = jump_table.len() as int;
    let m = code.len() as int;
    let header = code_blob_header(n, z, m);
    let entries = jump_entries(jump_table, zn);
    let packed = packed_mask(bitmask);
    let blob = code_blob(code, bitmask, jump_table);
    lemma_jump_entries_len(jump_table, zn);
    assert(blob == header + entries + code + packed);
    assert(header.len() == 9);
    assert(blob.subrange(0, 4) =~= le_bytes(n, 4));
    assert(blob.subrange(5, 9) =~= le_bytes(m, 4));
    lemma_le_roundtrip(n, 4);
    lemma_le_roundtrip(m, 4);
    assert(blob[4] == z);
    let code_start = 9 + n * zn;
    let mask_start = code_start + m;
    assert(entries.len() == n * zn);
    assert(blob.len() == mask_start + (m + 7) / 8);
    let parts = parse_code_blob(blob).unwrap();
    let want = code_blob_parts(code, bitmask, jump_table);
    assert(parse_code_blob(blob) is Some);
    assert(blob.subrange(code_start, mask_start) =~= code);
    assert forall|i: int| 0 <= i < n implies #[trigger] parts.jump_table[i] == want.jump_table[i] by {
        lemma_jump_entry_at(jump_table, zn, i);
        lemma_entries_fit(jump_table, i);
        assert(blob.subrange(9 + i * z, 9 + i * z + z) =~= entries.subrange(i * zn, i * zn + zn));
        lemma_le_roundtrip(jump_table[i] as int, zn);
    }
    assert forall|i: int| 0 <= i < m implies #[trigger] parts.mask[i] == want.mask[i] by {
        assert(0 <= i / 8 < packed.len());
        assert(blob[mask_start + i / 8] == packed[i / 8]);
        lemma_packed_mask_bit(bitmask, i);
    }
    assert(parts.jump_table =~= want.jump_table);
    assert(parts.mask =~= want.mask);
}

/// The parts of a standard program, as a reader recovers them.
pub struct StandardProgramParts {
    pub ro_data: Seq<u8>,
    pub rw_data: Seq<u8>,
    pub heap_pages: int,
    pub stack_size: int,
    pub code: CodeBlobParts,
}

/// Read a standard program: the header, the read-only and read-write data, and a
/// length-prefixed code blob that ends the program.
pub open spec fn parse_standard_program(program: Seq<u8>) -> Option<StandardProgramParts> {
    if program.len() < 11 {
        None
    } else {
        let ro_len = le_value(program.subrange(0, 3));
        let rw_len = le_value(program.subrange(3, 6));
        let heap_pages = le_value(program.subrange(6, 8));
        let stack_size = le_value(program.subrange(8, 11));
        let rw_start = 11 + ro_len;
        let len_start = rw_start + rw_len;
        if len_start + 4 <= program.len() {
            let blob_len = le_value(program.subrange(len_start, len_start + 4));
            let blob = program.subrange(len_start + 4, program.len() as int);
            if blob.len() == blob_len {
                match parse_code_blob(blob) {
                    Some(code) => Some(
                        StandardProgramParts {
                            ro_data: program.subrange(11, rw_start),
                            rw_data: program.subrange(rw_start, len_start),
                            heap_pages,
                            stack_size,
                            code,
                        },
                    ),
                    None => None,
                }
            } else {
                None
            }
        } else {
            None
        }
    }
}

/// A standard program reads back as the data, sizes, jump table, code and mask it
/// was built from (as long as no length field wraps: fewer than 2³² jump-table
/// entries and code bytes, and a code blob shorter than 2³² bytes).
pub proof fn lemma_standard_program_roundtrip(
    ro_data: Seq<u8>,
    rw_data: Seq<u8>,
    heap_pages: u16,
    stack_size: u32,
    code: Seq<u8>,
    bitmask: Seq<u8>,
    jump_table: Seq<u32>,
)
    requires
        ro_data.len() < 0x100_0000,
        rw_data.len() < 0x100_0000,
        stack_size < 0x100_0000,
        code.len() == bitmask.len(),
        jump_table.len() < 0x1_0000_0000,
        code.len() < 0x1_0000_0000,
        code_blob(code, bitmask, jump_table).len() < 0x1_0000_0000,
    ensures
        parse_standard_program(
            standard_program(ro_data, rw_data, heap_pages, stack_size, code, bitmask, jump_table),
        ) == Some(
            StandardProgramParts {
                ro_data,
                rw_data,
                heap_pages: heap_pages as int,
                stack_size: stack_size as int,
                code: code_blob_parts(code, bitmask, jump_table),
            },
        ),
{
    reveal_with_fuel(pow256, 5);
    let blob = code_blob(code, bitmask, jump_table);
    let ro = ro_data.len() as int;
    let rw = rw_data.len() as int;
    let header = program_header(ro, rw, heap_pages, stack_size);
    let program = standard_program(ro_data, rw_data, heap_pages, stack_size, code, bitmask, jump_table);
    assert(program == header + ro_data + rw_data + le_bytes(blob.len() as int, 4) + blob);
    assert(header.len() == 11);
    assert(program.subrange(0, 3) =~= le_bytes(ro, 3));
    assert(program.subrange(3, 6) =~= le_bytes(rw, 3));
    assert(program.subrange(6, 8) =~= le_bytes(heap_pages as int, 2));
    assert(program.subrange(8, 11) =~= le_bytes(stack_size as int, 3));
    lemma_le_roundtrip(ro, 3);
    lemma_le_roundtrip(rw, 3);
    lemma_le_roundtrip(heap_pages as int, 2);
    lemma_le_roundtrip(stack_size as int, 3);
    let rw_start = 11 + ro;
    let len_start = rw_start + rw;
    assert(program.subrange(len_start, len_start + 4) =~= le_bytes(blob.len() as int, 4));
    lemma_le_roundtrip(blob.len() as int, 4);
    assert(program.subrange(len_start + 4, program.len() as int) =~= blob);
    assert(program.subrange(11, rw_start) =~= ro_data);
    assert(program.subrange(rw_start, len_start) =~= rw_data);
    lemma_code_blob_roundtrip(code, bitmask, jump_table);
}

} // verus!
