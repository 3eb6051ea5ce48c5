//! Binary snapshot codec. A snapshot is serialized as an 8-byte magic tag,
//! the grid width and height as little-endian 32-bit words, then the five
//! per-cell arrays in a fixed order (mass, energy, genome A, genome B,
//! resource), each prefixed by its little-endian 64-bit element count and
//! stored as little-endian 32-bit words, bit-exact.

use vstd::prelude::*;

verus! {

use crate::world::{BufferSnapshot, MAX_CELLS};

/// Why a snapshot failed to load.
#[derive(Clone, Copy, Debug, PartialEq, Eq, Structural)]
pub enum SnapshotError {
    /// The container does not start with the magic tag: not a snapshot.
    BadMagic,
    /// The container ends before the data it announces.
    Truncated,
    /// A well-formed snapshot, but for another grid size than the live one.
    DimensionMismatch,
    /// An array's element count contradicts the stated grid size.
    CountMismatch,
}

/// The 8-byte magic tag that opens every snapshot container: the ASCII
/// bytes of `EVOSNP01`.
pub open spec fn spec_magic() -> Seq<u8> {
    seq![0x45u8, 0x56u8, 0x4Fu8, 0x53u8, 0x4Eu8, 0x50u8, 0x30u8, 0x31u8]
}

/// Little-endian bytes of a 32-bit word.
pub open spec fn le32(x: u32) -> Seq<u8> {
    seq![
        (x & 0xff) as u8,
        ((x >> 8) & 0xff) as u8,
        ((x >> 16) & 0xff) as u8,
        ((x >> 24) & 0xff) as u8,
    ]
}

/// Little-endian bytes of a 64-bit word.
pub open spec fn le64(x: u64) -> Seq<u8> {
    seq![
        (x & 0xff) as u8,
        ((x >> 8) & 0xff) as u8,
        ((x >> 16) & 0xff) as u8,
        ((x >> 24) & 0xff) as u8,
        ((x >> 32) & 0xff) as u8,
        ((x >> 40) & 0xff) as u8,
        ((x >> 48) & 0xff) as u8,
        ((x >> 56) & 0xff) as u8,
    ]
}

/// All words of an array, little-endian, in order.
pub open spec fn words_bytes(s: Seq<u32>) -> Seq<u8>
    decreases s.len(),
{
    if s.len() == 0 {
        Seq::empty()
    } else {
        words_bytes(s.drop_last()) + le32(s.last())
    }
}

/// One length-prefixed array block.
pub open spec fn array_block(s: Seq<u32>) -> Seq<u8> {
    le64(s.len() as u64) + words_bytes(s)
}

/// The complete container for one snapshot.
pub open spec fn spec_encode(s: BufferSnapshot) -> Seq<u8> {
    spec_magic() + le32(s.width) + le32(s.height) + array_block(s.mass@) + array_block(s.energy@)
        + array_block(s.genome_a@) + array_block(s.genome_b@) + array_block(s.resource@)
}

proof fn lemma_words_bytes_len(s: Seq<u32>)
    ensures
        words_bytes(s).len() == 4 * s.len(),
    decreases s.len(),
{
    if s.len() > 0 {
        lemma_words_bytes_len(s.drop_last());
    }
}

/// Append the little-endian bytes of one 32-bit word.
fn push_u32_le(out: &mut Vec<u8>, x: u32)
    ensures
        final(out)@ == old(out)@ + le32(x),
{
    proof {
        assert((x & 0xff) < 256 && ((x >> 8) & 0xff) < 256 && ((x >> 16) & 0xff) < 256 && ((x
            >> 24) & 0xff) < 256) by (bit_vector);
    }
    out.push((x & 0xff) as u8);
    out.push(((x >> 8) & 0xff) as u8);
    out.push(((x >> 16) & 0xff) as u8);
    out.push(((x >> 24) & 0xff) as u8);
    proof {
        assert(final(out)@ =~= old(out)@ + le32(x));
    }
}

/// Append the little-endian bytes of one 64-bit word.
fn push_u64_le(out: &mut Vec<u8>, x: u64)
    ensures
        final(out)@ == old(out)@ + le64(x),
{
    proof {
        assert((x & 0xff) < 256 && ((x >> 8) & 0xff) < 256 && ((x >> 16) & 0xff) < 256 && ((x
            >> 24) & 0xff) < 256 && ((x >> 32) & 0xff) < 256 && ((x >> 40) & 0xff) < 256 && ((x
            >> 48) & 0xff) < 256 && ((x >> 56) & 0xff) < 256) by (bit_vector);
    }
    out.push((x & 0xff) as u8);
    out.push(((x >> 8) & 0xff) as u8);
    out.push(((x >> 16) & 0xff) as u8);
    out.push(((x >> 24) & 0xff) as u8);
    out.push(((x >> 32) & 0xff) as u8);
    out.push(((x >> 40) & 0xff) as u8);
    out.push(((x >> 48) & 0xff) as u8);
    out.push(((x >> 56) & 0xff) as u8);
    proof {
        assert(final(out)@ =~= old(out)@ + le64(x));
    }
}

/// Append one length-prefixed array block.
fn push_block(out: &mut Vec<u8>, v: &Vec<u32>)
    requires
        old(out)@.len() + 8 + 4 * v@.len() <= usize::MAX,
    ensures
        final(out)@ == old(out)@ + array_block(v@),
{
    push_u64_le(out, v.len() as u64);
    let ghost base = out@;
    let mut i: usize = 0;
    while i < v.len()
        invariant
            i <= v@.len(),
            out@ == base + words_bytes(v@.take(i as int)),
        decreases v@.len() - i,
    {
        push_u32_le(out, v[i]);
        proof {
            assert(v@.take(i + 1).drop_last() =~= v@.take(i as int));
            assert(v@.take(i + 1).last() == v@[i as int]);
            assert(out@ =~= base + words_bytes(v@.take(i + 1)));
        }
        i = i + 1;
    }
    proof {
        assert(v@.take(v@.len() as int) =~= v@);
        assert(final(out)@ =~= old(out)@ + array_block(v@));
    }
}

// ======================== Parsing model ========================

/// The 32-bit word whose little-endian bytes sit at `off`.
pub open spec fn word_at(b: Seq<u8>, off: int) -> u32 {
    (b[off] + b[off + 1] * 0x100 + b[off + 2] * 0x1_0000 + b[off + 3] * 0x100_0000) as u32
}

/// The element count whose little-endian 64-bit bytes sit at `off`.
pub open spec fn count_at(b: Seq<u8>, off: int) -> int {
    b[off] + b[off + 1] * 0x100 + b[off + 2] * 0x1_0000 + b[off + 3] * 0x100_0000 + b[off + 4]
        * 0x1_0000_0000 + b[off + 5] * 0x100_0000_0000 + b[off + 6] * 0x1_0000_0000_0000 + b[off
        + 7] * 0x100_0000_0000_0000
}

/// The `n` words whose bytes start at `off`.
pub open spec fn words_at(b: Seq<u8>, off: int, n: int) -> Seq<u32> {
    Seq::new(n as nat, |k: int| word_at(b, off + 4 * k))
}

/// The contents of the length-prefixed block at `off`.
pub open spec fn block_words(b: Seq<u8>, off: int) -> Seq<u32> {
    words_at(b, off + 8, count_at(b, off))
}

/// Where the block at `off` ends.
pub open spec fn block_end(b: Seq<u8>, off: int) -> int {
    off + 8 + 4 * count_at(b, off)
}

/// The block at `off` announces no more data than the container holds.
pub open spec fn block_ok(b: Seq<u8>, off: int) -> bool {
    &&& 0 <= off
    &&& off + 8 <= b.len()
    &&& block_end(b, off) <= b.len()
}

/// Offsets of the five arrays: mass at 16, the rest chained.
pub open spec fn o_energy(b: Seq<u8>) -> int {
    block_end(b, 16)
}

pub open spec fn o_genome_a(b: Seq<u8>) -> int {
    block_end(b, o_energy(b))
}

pub open spec fn o_genome_b(b: Seq<u8>) -> int {
    block_end(b, o_genome_a(b))
}

pub open spec fn o_resource(b: Seq<u8>) -> int {
    block_end(b, o_genome_b(b))
}

/// All five blocks fit inside the container.
pub open spec fn blocks_ok(b: Seq<u8>) -> bool {
    &&& block_ok(b, 16)
    &&& block_ok(b, o_energy(b))
    &&& block_ok(b, o_genome_a(b))
    &&& block_ok(b, o_genome_b(b))
    &&& block_ok(b, o_resource(b))
}

/// A container loads against a live `ew x eh` grid exactly when it starts
/// with the magic tag, names those dimensions, holds five complete blocks,
/// and each block's element count matches the grid.
pub open spec fn parse_ok(b: Seq<u8>, ew: u32, eh: u32) -> bool {
    &&& b.len() >= 16
    &&& b.subrange(0, 8) == spec_magic()
    &&& word_at(b, 8) == ew
    &&& word_at(b, 12) == eh
    &&& blocks_ok(b)
    &&& count_at(b, 16) == ew * eh
    &&& count_at(b, o_energy(b)) == ew * eh
    &&& count_at(b, o_genome_a(b)) == 4 * ew * eh
    &&& count_at(b, o_genome_b(b)) == ew * eh
    &&& count_at(b, o_resource(b)) == ew * eh
}

/// Which typed error a failing load reports, by the first check that fails.
pub open spec fn parse_err(b: Seq<u8>, ew: u32, eh: u32) -> SnapshotError {
    if b.len() < 8 {
        SnapshotError::Truncated
    } else if b.subrange(0, 8) != spec_magic() {
        SnapshotError::BadMagic
    } else if b.len() < 16 {
        SnapshotError::Truncated
    } else if word_at(b, 8) != ew || word_at(b, 12) != eh {
        SnapshotError::DimensionMismatch
    } else if !blocks_ok(b) {
        SnapshotError::Truncated
    } else {
        SnapshotError::CountMismatch
    }
}

// ======================== Decoding ========================

/// The 32-bit word at `off`, read back from its little-endian bytes.
fn read_u32_at(b: &Vec<u8>, off: usize) -> (x: u32)
    requires
        off + 4 <= b@.len(),
        b@.len() <= usize::MAX,
    ensures
        x == word_at(b@, off as int),
{
    (b[off] as u32) + (b[off + 1] as u32) * 0x100 + (b[off + 2] as u32) * 0x1_0000 + (b[off
        + 3] as u32) * 0x100_0000
}

/// The 64-bit count at `off`, read back from its little-endian bytes.
fn read_u64_at(b: &Vec<u8>, off: usize) -> (x: u64)
    requires
        off + 8 <= b@.len(),
        b@.len() <= usize::MAX,
    ensures
        x == count_at(b@, off as int),
{
    (b[off] as u64) + (b[off + 1] as u64) * 0x100 + (b[off + 2] as u64) * 0x1_0000 + (b[off
        + 3] as u64) * 0x100_0000 + (b[off + 4] as u64) * 0x1_0000_0000 + (b[off + 5] as u64)
        * 0x100_0000_0000 + (b[off + 6] as u64) * 0x1_0000_0000_0000 + (b[off + 7] as u64)
        * 0x100_0000_0000_0000
}

/// Read one length-prefixed array block, refusing one that announces more
/// data than the container holds.
fn read_block(b: &Vec<u8>, off: usize) -> (r: Option<(Vec<u32>, usize)>)
    requires
        off <= b@.len(),
    ensures
        block_ok(b@, off as int) ==> (r matches Some(p) && p.0@ == block_words(b@, off as int)
            && p.1 == block_end(b@, off as int)),
        !block_ok(b@, off as int) ==> r is None,
{
    if b.len() - off < 8 {
        return None;
    }
    let n64: u64 = read_u64_at(b, off);
    let avail: usize = b.len() - off - 8;
    proof {
        vstd::arithmetic::div_mod::lemma_fundamental_div_mod(avail as int, 4);
        vstd::arithmetic::div_mod::lemma_mod_bound(avail as int, 4);
    }
    if n64 > (avail as u64) / 4 {
        return None;
    }
    let n: usize = n64 as usize;
    let mut out: Vec<u32> = Vec::new();
    let mut i: usize = 0;
    while i < n
        invariant
            i <= n,
            off + 8 + 4 * n <= b@.len(),
            b@.len() <= usize::MAX,
            n == count_at(b@, off as int),
            out@ == words_at(b@, off as int + 8, i as int),
        decreases n - i,
    {
        out.push(read_u32_at(b, off + 8 + 4 * i));
        proof {
            assert(out@ =~= words_at(b@, off as int + 8, i + 1));
        }
        i = i + 1;
    }
    proof {
        assert(out@ =~= block_words(b@, off as int));
    }
    Some((out, off + 8 + 4 * n))
}

/// Load a snapshot for a live `expect_width x expect_height` grid from its
/// binary container. Bytes after the last array are ignored. Every failure
/// is reported as the typed error of the first check that fails; a
/// dimension mismatch is the one recoverable case, the caller falls back
/// to a fresh world.
#[verifier::spinoff_prover]
#[verifier::rlimit(100)]
pub fn load_snapshot(bytes: &Vec<u8>, expect_width: u32, expect_height: u32) -> (r: Result<
    BufferSnapshot,
    SnapshotError,
>)
    requires
        1 <= expect_width,
        1 <= expect_height,
        expect_width * expect_height <= MAX_CELLS,
    ensures
        parse_ok(bytes@, expect_width, expect_height) ==> (r matches Ok(s) && s.wf() && s.width
            == expect_width && s.height == expect_height && s.mass@ == block_words(bytes@, 16)
            && s.energy@ == block_words(bytes@, o_energy(bytes@)) && s.genome_a@ == block_words(
            bytes@,
            o_genome_a(bytes@),
        ) && s.genome_b@ == block_words(bytes@, o_genome_b(bytes@)) && s.resource@ == block_words(
            bytes@,
            o_resource(bytes@),
        )),
        !parse_ok(bytes@, expect_width, expect_height) ==> r == Err::<BufferSnapshot,
            SnapshotError,
        >(parse_err(bytes@, expect_width, expect_height)),
{
    if bytes.len() < 8 {
        return Err(SnapshotError::Truncated);
    }
    let magic_ok: bool = bytes[0] == 0x45 && bytes[1] == 0x56 && bytes[2] == 0x4F && bytes[3]
        == 0x53 && bytes[4] == 0x4E && bytes[5] == 0x50 && bytes[6] == 0x30 && bytes[7] == 0x31;
    proof {
        if magic_ok {
            assert(bytes@.subrange(0, 8) =~= spec_magic());
        } else {
            assert(bytes@.subrange(0, 8) != spec_magic()) by {
                assert(forall|k: int| 0 <= k < 8 ==> bytes@.subrange(0, 8)[k] == bytes@[k]);
            }
        }
    }
    if !magic_ok {
        return Err(SnapshotError::BadMagic);
    }
    if bytes.len() < 16 {
        return Err(SnapshotError::Truncated);
    }
    let w = read_u32_at(bytes, 8);
    let h = read_u32_at(bytes, 12);
    if w != expect_width || h != expect_height {
        return Err(SnapshotError::DimensionMismatch);
    }

    let b1 = read_block(bytes, 16);
    let (mass, off1) = match b1 {
        Some(p) => p,
        None => { return Err(SnapshotError::Truncated); },
    };
    let b2 = read_block(bytes, off1);
    let (energy, off2) = match b2 {
        Some(p) => p,
        None => { return Err(SnapshotError::Truncated); },
    };
    let b3 = read_block(bytes, off2);
    let (genome_a, off3) = match b3 {
        Some(p) => p,
        None => { return Err(SnapshotError::Truncated); },
    };
    let b4 = read_block(bytes, off3);
    let (genome_b, off4) = match b4 {
        Some(p) => p,
        None => { return Err(SnapshotError::Truncated); },
    };
    let b5 = read_block(bytes, off4);
    let (resource, _off5) = match b5 {
        Some(p) => p,
        None => { return Err(SnapshotError::Truncated); },
    };

    proof {
        assert(block_ok(bytes@, 16));
        assert(block_ok(bytes@, o_energy(bytes@)));
        assert(block_ok(bytes@, o_genome_a(bytes@)));
        assert(block_ok(bytes@, o_genome_b(bytes@)));
        assert(block_ok(bytes@, o_resource(bytes@)));
        assert(blocks_ok(bytes@));
    }
    let cells: usize = (expect_width as u64 * expect_height as u64) as usize;
    proof {
        assert(cells == expect_width * expect_height);
        assert(4 * ((expect_width as int) * (expect_height as int)) == 4 * (expect_width as int)
            * (expect_height as int)) by (nonlinear_arith);
        assert(mass@.len() == count_at(bytes@, 16));
        assert(energy@.len() == count_at(bytes@, o_energy(bytes@)));
        assert(genome_a@.len() == count_at(bytes@, o_genome_a(bytes@)));
        assert(genome_b@.len() == count_at(bytes@, o_genome_b(bytes@)));
        assert(resource@.len() == count_at(bytes@, o_resource(bytes@)));
    }
    if mass.len() != cells || energy.len() != cells || genome_b.len() != cells || resource.len()
        != cells || genome_a.len() != 4 * cells {
        return Err(SnapshotError::CountMismatch);
    }

    let snap = BufferSnapshot {
        width: expect_width,
        height: expect_height,
        mass,
        energy,
        genome_a,
        genome_b,
        resource,
    };
    Ok(snap)
}

// ======================== Round trip ========================

proof fn lemma_word_at_le32(b: Seq<u8>, off: int, x: u32)
    requires
        0 <= off,
        off + 4 <= b.len(),
        b.subrange(off, off + 4) == le32(x),
    ensures
        word_at(b, off) == x,
{
    assert(b[off] == (x & 0xff) as u8 && b[off + 1] == ((x >> 8) & 0xff) as u8 && b[off + 2] == ((x
        >> 16) & 0xff) as u8 && b[off + 3] == ((x >> 24) & 0xff) as u8) by {
        assert(b.subrange(off, off + 4)[0] == b[off]);
        assert(b.subrange(off, off + 4)[1] == b[off + 1]);
        assert(b.subrange(off, off + 4)[2] == b[off + 2]);
        assert(b.subrange(off, off + 4)[3] == b[off + 3]);
    }
    assert((x & 0xff) < 256 && ((x >> 8) & 0xff) < 256 && ((x >> 16) & 0xff) < 256 && ((x >> 24)
        & 0xff) < 256) by (bit_vector);
    assert((x & 0xff) + ((x >> 8) & 0xff) * 0x100 + ((x >> 16) & 0xff) * 0x1_0000 + ((x >> 24)
        & 0xff) * 0x100_0000 == x) by (bit_vector);
}

proof fn lemma_count_at_le64(b: Seq<u8>, off: int, x: u64)
    requires
        0 <= off,
        off + 8 <= b.len(),
        b.subrange(off, off + 8) == le64(x),
    ensures
        count_at(b, off) == x,
{
    assert(b[off] == (x & 0xff) as u8 && b[off + 1] == ((x >> 8) & 0xff) as u8 && b[off + 2] == ((x
        >> 16) & 0xff) as u8 && b[off + 3] == ((x >> 24) & 0xff) as u8 && b[off + 4] == ((x >> 32)
        & 0xff) as u8 && b[off + 5] == ((x >> 40) & 0xff) as u8 && b[off + 6] == ((x >> 48)
        & 0xff) as u8 && b[off + 7] == ((x >> 56) & 0xff) as u8) by {
        assert(b.subrange(off, off + 8)[0] == b[off]);
        assert(b.subrange(off, off + 8)[1] == b[off + 1]);
        assert(b.subrange(off, off + 8)[2] == b[off + 2]);
        assert(b.subrange(off, off + 8)[3] == b[off + 3]);
        assert(b.subrange(off, off + 8)[4] == b[off + 4]);
        assert(b.subrange(off, off + 8)[5] == b[off + 5]);
        assert(b.subrange(off, off + 8)[6] == b[off + 6]);
        assert(b.subrange(off, off + 8)[7] == b[off + 7]);
    }
    assert((x & 0xff) < 256 && ((x >> 8) & 0xff) < 256 && ((x >> 16) & 0xff) < 256 && ((x >> 24)
        & 0xff) < 256 && ((x >> 32) & 0xff) < 256 && ((x >> 40) & 0xff) < 256 && ((x >> 48)
        & 0xff) < 256 && ((x >> 56) & 0xff) < 256) by (bit_vector);
    assert((x & 0xff) + ((x >> 8) & 0xff) * 0x100 + ((x >> 16) & 0xff) * 0x1_0000 + ((x >> 24)
        & 0xff) * 0x100_0000 + ((x >> 32) & 0xff) * 0x1_0000_0000 + ((x >> 40) & 0xff)
        * 0x100_0000_0000 + ((x >> 48) & 0xff) * 0x1_0000_0000_0000 + ((x >> 56) & 0xff)
        * 0x100_0000_0000_0000 == x) by (bit_vector);
}

proof fn lemma_words_bytes_index(s: Seq<u32>, k: int)
    requires
        0 <= k < s.len(),
    ensures
        words_bytes(s).subrange(4 * k, 4 * k + 4) == le32(s[k]),
    decreases s.len(),
{
    lemma_words_bytes_len(s);
    lemma_words_bytes_len(s.drop_last());
    let a = words_bytes(s.drop_last());
    let t = le32(s.last());
    assert(words_bytes(s) == a + t);
    if k == s.len() - 1 {
        assert((a + t)[4 * k] == t[0]);
        assert((a + t)[4 * k + 1] == t[1]);
        assert((a + t)[4 * k + 2] == t[2]);
        assert((a + t)[4 * k + 3] == t[3]);
        assert(words_bytes(s).subrange(4 * k, 4 * k + 4) =~= le32(s.last()));
    } else {
        lemma_words_bytes_index(s.drop_last(), k);
        assert((a + t)[4 * k] == a[4 * k]);
        assert((a + t)[4 * k + 1] == a[4 * k + 1]);
        assert((a + t)[4 * k + 2] == a[4 * k + 2]);
        assert((a + t)[4 * k + 3] == a[4 * k + 3]);
        assert(words_bytes(s).subrange(4 * k, 4 * k + 4) =~= a.subrange(4 * k, 4 * k + 4));
        assert(s.drop_last()[k] == s[k]);
    }
}

/// Splitting an appended sequence recovers both halves.
proof fn lemma_split_append(x: Seq<u8>, y: Seq<u8>)
    ensures
        (x + y).len() == x.len() + y.len(),
        (x + y).subrange(0, x.len() as int) == x,
        (x + y).subrange(x.len() as int, (x.len() + y.len()) as int) == y,
{
    assert((x + y).subrange(0, x.len() as int) =~= x);
    assert((x + y).subrange(x.len() as int, (x.len() + y.len()) as int) =~= y);
}

/// A subrange inside a prefix is a subrange of the whole.
proof fn lemma_subrange_of_prefix(b: Seq<u8>, plen: int, i: int, j: int)
    requires
        0 <= i <= j <= plen <= b.len(),
    ensures
        b.subrange(0, plen).subrange(i, j) == b.subrange(i, j),
{
    assert(b.subrange(0, plen).subrange(i, j) =~= b.subrange(i, j));
}

/// What it means for a complete block for `arr` to sit at `off` in `b`.
proof fn lemma_block_at(b: Seq<u8>, off: int, arr: Seq<u32>)
    requires
        0 <= off,
        off + 8 + 4 * arr.len() <= b.len(),
        b.subrange(off, off + 8 + 4 * arr.len()) == array_block(arr),
        arr.len() <= 0xFFFF_FFFF_FFFF_FFFF,
    ensures
        count_at(b, off) == arr.len(),
        block_end(b, off) == off + 8 + 4 * arr.len(),
        block_ok(b, off),
        block_words(b, off) == arr,
{
    lemma_words_bytes_len(arr);
    let blk = array_block(arr);
    let wb = words_bytes(arr);
    let blen = 8 + 4 * arr.len();
    assert forall|m: int| 0 <= m < blen implies b[off + m] == blk[m] by {
        assert(b.subrange(off, off + blen)[m] == b[off + m]);
    }
    assert(b.subrange(off, off + 8) =~= le64(arr.len() as u64)) by {
        lemma_split_append(le64(arr.len() as u64), wb);
    }
    lemma_count_at_le64(b, off, arr.len() as u64);
    assert forall|k: int| 0 <= k < arr.len() implies word_at(b, off + 8 + 4 * k) == arr[k] by {
        lemma_words_bytes_index(arr, k);
        assert(blk[8 + 4 * k] == wb[4 * k]);
        assert(blk[8 + 4 * k + 1] == wb[4 * k + 1]);
        assert(blk[8 + 4 * k + 2] == wb[4 * k + 2]);
        assert(blk[8 + 4 * k + 3] == wb[4 * k + 3]);
        assert(wb.subrange(4 * k, 4 * k + 4)[0] == wb[4 * k]);
        assert(wb.subrange(4 * k, 4 * k + 4)[1] == wb[4 * k + 1]);
        assert(wb.subrange(4 * k, 4 * k + 4)[2] == wb[4 * k + 2]);
        assert(wb.subrange(4 * k, 4 * k + 4)[3] == wb[4 * k + 3]);
        assert(b.subrange(off + 8 + 4 * k, off + 8 + 4 * k + 4) =~= le32(arr[k]));
        lemma_word_at_le32(b, off + 8 + 4 * k, arr[k]);
    }
    assert(block_words(b, off) =~= arr);
}

/// Layout of an encoded container: where the header fields and the five
/// array blocks sit.
#[verifier::spinoff_prover]
#[verifier::rlimit(100)]
proof fn lemma_encode_layout(s: BufferSnapshot)
    ensures
        spec_encode(s).len() == 56 + 4 * s.mass@.len() + 4 * s.energy@.len() + 4
            * s.genome_a@.len() + 4 * s.genome_b@.len() + 4 * s.resource@.len(),
        spec_encode(s).subrange(0, 8) == spec_magic(),
        spec_encode(s).subrange(8, 12) == le32(s.width),
        spec_encode(s).subrange(12, 16) == le32(s.height),
        spec_encode(s).subrange(16, (24 + 4 * s.mass@.len()) as int) == array_block(s.mass@),
        spec_encode(s).subrange(
            (24 + 4 * s.mass@.len()) as int,
            (32 + 4 * s.mass@.len() + 4 * s.energy@.len()) as int,
        ) == array_block(s.energy@),
        spec_encode(s).subrange(
            (32 + 4 * s.mass@.len() + 4 * s.energy@.len()) as int,
            (40 + 4 * s.mass@.len() + 4 * s.energy@.len() + 4 * s.genome_a@.len()) as int,
        ) == array_block(s.genome_a@),
        spec_encode(s).subrange(
            (40 + 4 * s.mass@.len() + 4 * s.energy@.len() + 4 * s.genome_a@.len()) as int,
            (48 + 4 * s.mass@.len() + 4 * s.energy@.len() + 4 * s.genome_a@.len() + 4
                * s.genome_b@.len()) as int,
        ) == array_block(s.genome_b@),
        spec_encode(s).subrange(
            (48 + 4 * s.mass@.len() + 4 * s.energy@.len() + 4 * s.genome_a@.len() + 4
                * s.genome_b@.len()) as int,
            (56 + 4 * s.mass@.len() + 4 * s.energy@.len() + 4 * s.genome_a@.len() + 4
                * s.genome_b@.len() + 4 * s.resource@.len()) as int,
        ) == array_block(s.resource@),
{
    let b = spec_encode(s);
    lemma_words_bytes_len(s.mass@);
    lemma_words_bytes_len(s.energy@);
    lemma_words_bytes_len(s.genome_a@);
    lemma_words_bytes_len(s.genome_b@);
    lemma_words_bytes_len(s.resource@);
    let b1 = array_block(s.mass@);
    let b2 = array_block(s.energy@);
    let b3 = array_block(s.genome_a@);
    let b4 = array_block(s.genome_b@);
    let b5 = array_block(s.resource@);
    let c0 = spec_magic() + le32(s.width) + le32(s.height);
    let c1 = c0 + b1;
    let c2 = c1 + b2;
    let c3 = c2 + b3;
    let c4 = c3 + b4;
    let p1 = 16int;
    let p2 = p1 + b1.len();
    let p3 = p2 + b2.len();
    let p4 = p3 + b3.len();
    let p5 = p4 + b4.len();

    // Peel the container from the back: each block is a subrange of b.
    lemma_split_append(c4, b5);
    assert(b.subrange(p5, b.len() as int) == b5);
    assert(b.subrange(0, p5) == c4);
    lemma_split_append(c3, b4);
    lemma_subrange_of_prefix(b, p5, p4, p5);
    lemma_subrange_of_prefix(b, p5, 0, p4);
    assert(b.subrange(p4, p5) == b4);
    assert(b.subrange(0, p4) == c3);
    lemma_split_append(c2, b3);
    lemma_subrange_of_prefix(b, p4, p3, p4);
    lemma_subrange_of_prefix(b, p4, 0, p3);
    assert(b.subrange(p3, p4) == b3);
    assert(b.subrange(0, p3) == c2);
    lemma_split_append(c1, b2);
    lemma_subrange_of_prefix(b, p3, p2, p3);
    lemma_subrange_of_prefix(b, p3, 0, p2);
    assert(b.subrange(p2, p3) == b2);
    assert(b.subrange(0, p2) == c1);
    lemma_split_append(c0, b1);
    lemma_subrange_of_prefix(b, p2, p1, p2);
    lemma_subrange_of_prefix(b, p2, 0, p1);
    assert(b.subrange(p1, p2) == b1);
    assert(b.subrange(0, p1) == c0);

    // Header: magic and the two dimension words.
    lemma_split_append(spec_magic() + le32(s.width), le32(s.height));
    lemma_split_append(spec_magic(), le32(s.width));
    lemma_subrange_of_prefix(b, 16, 12, 16);
    lemma_subrange_of_prefix(b, 16, 0, 12);
    assert(b.subrange(12, 16) == le32(s.height));
    assert(b.subrange(0, 12) == spec_magic() + le32(s.width));
    lemma_subrange_of_prefix(b, 12, 8, 12);
    lemma_subrange_of_prefix(b, 12, 0, 8);
    assert(b.subrange(8, 12) == le32(s.width));
    assert(b.subrange(0, 8) == spec_magic());
}

/// The mass block of an encoded container.
#[verifier::spinoff_prover]
#[verifier::rlimit(100)]
proof fn lemma_rt_mass(s: BufferSnapshot)
    requires
        s.wf(),
    ensures
        count_at(spec_encode(s), 16) == s.mass@.len(),
        block_ok(spec_encode(s), 16),
        block_words(spec_encode(s), 16) == s.mass@,
        o_energy(spec_encode(s)) == 24 + 4 * s.mass@.len(),
{
    lemma_encode_layout(s);
    lemma_block_at(spec_encode(s), 16, s.mass@);
}

/// The energy block of an encoded container.
#[verifier::spinoff_prover]
#[verifier::rlimit(100)]
proof fn lemma_rt_energy(s: BufferSnapshot)
    requires
        s.wf(),
        o_energy(spec_encode(s)) == 24 + 4 * s.mass@.len(),
    ensures
        count_at(spec_encode(s), o_energy(spec_encode(s))) == s.energy@.len(),
        block_ok(spec_encode(s), o_energy(spec_encode(s))),
        block_words(spec_encode(s), o_energy(spec_encode(s))) == s.energy@,
        o_genome_a(spec_encode(s)) == 32 + 4 * s.mass@.len() + 4 * s.energy@.len(),
{
    lemma_encode_layout(s);
    lemma_block_at(spec_encode(s), (24 + 4 * s.mass@.len()) as int, s.energy@);
}

/// The first genome block of an encoded container.
#[verifier::spinoff_prover]
#[verifier::rlimit(100)]
proof fn lemma_rt_genome_a(s: BufferSnapshot)
    requires
        s.wf(),
        o_genome_a(spec_encode(s)) == 32 + 4 * s.mass@.len() + 4 * s.energy@.len(),
    ensures
        count_at(spec_encode(s), o_genome_a(spec_encode(s))) == s.genome_a@.len(),
        block_ok(spec_encode(s), o_genome_a(spec_encode(s))),
        block_words(spec_encode(s), o_genome_a(spec_encode(s))) == s.genome_a@,
        o_genome_b(spec_encode(s)) == 40 + 4 * s.mass@.len() + 4 * s.energy@.len() + 4
            * s.genome_a@.len(),
{
    lemma_encode_layout(s);
    lemma_block_at(
        spec_encode(s),
        (32 + 4 * s.mass@.len() + 4 * s.energy@.len()) as int,
        s.genome_a@,
    );
}

/// The second genome block of an encoded container.
#[verifier::spinoff_prover]
#[verifier::rlimit(100)]
proof fn lemma_rt_genome_b(s: BufferSnapshot)
    requires
        s.wf(),
        o_genome_b(spec_encode(s)) == 40 + 4 * s.mass@.len() + 4 * s.energy@.len() + 4
            * s.genome_a@.len(),
    ensures
        count_at(spec_encode(s), o_genome_b(spec_encode(s))) == s.genome_b@.len(),
        block_ok(spec_encode(s), o_genome_b(spec_encode(s))),
        block_words(spec_encode(s), o_genome_b(spec_encode(s))) == s.genome_b@,
        o_resource(spec_encode(s)) == 48 + 4 * s.mass@.len() + 4 * s.energy@.len() + 4
            * s.genome_a@.len() + 4 * s.genome_b@.len(),
{
    lemma_encode_layout(s);
    lemma_block_at(
        spec_encode(s),
        (40 + 4 * s.mass@.len() + 4 * s.energy@.len() + 4 * s.genome_a@.len()) as int,
        s.genome_b@,
    );
}

/// The resource block of an encoded container.
#[verifier::spinoff_prover]
#[verifier::rlimit(100)]
proof fn lemma_rt_resource(s: BufferSnapshot)
    requires
        s.wf(),
        o_resource(spec_encode(s)) == 48 + 4 * s.mass@.len() + 4 * s.energy@.len() + 4
            * s.genome_a@.len() + 4 * s.genome_b@.len(),
    ensures
        count_at(spec_encode(s), o_resource(spec_encode(s))) == s.resource@.len(),
        block_ok(spec_encode(s), o_resource(spec_encode(s))),
        block_words(spec_encode(s), o_resource(spec_encode(s))) == s.resource@,
{
    lemma_encode_layout(s);
    lemma_block_at(
        spec_encode(s),
        (48 + 4 * s.mass@.len() + 4 * s.energy@.len() + 4 * s.genome_a@.len() + 4
            * s.genome_b@.len()) as int,
        s.resource@,
    );
}

/// Four times a product, however associated.
proof fn proof_assoc_four(w: int, h: int)
    by (nonlinear_arith)
    ensures
        4 * (w * h) == 4 * w * h,
{
}

/// Snapshot round trip: the container written for any well-formed snapshot
/// loads back, against the same grid, to exactly the five arrays and
/// dimensions it was written from, bit-exact.
#[verifier::spinoff_prover]
#[verifier::rlimit(100)]
pub proof fn lemma_snapshot_round_trip(s: BufferSnapshot)
    requires
        s.wf(),
    ensures
        parse_ok(spec_encode(s), s.width, s.height),
        block_words(spec_encode(s), 16) == s.mass@,
        block_words(spec_encode(s), o_energy(spec_encode(s))) == s.energy@,
        block_words(spec_encode(s), o_genome_a(spec_encode(s))) == s.genome_a@,
        block_words(spec_encode(s), o_genome_b(spec_encode(s))) == s.genome_b@,
        block_words(spec_encode(s), o_resource(spec_encode(s))) == s.resource@,
{
    let b = spec_encode(s);
    lemma_encode_layout(s);
    proof_assoc_four(s.width as int, s.height as int);
    lemma_word_at_le32(b, 8, s.width);
    lemma_word_at_le32(b, 12, s.height);
    lemma_rt_mass(s);
    lemma_rt_energy(s);
    lemma_rt_genome_a(s);
    lemma_rt_genome_b(s);
    lemma_rt_resource(s);
}

/// Serialize a snapshot into its binary container.
pub fn save_snapshot(snap: &BufferSnapshot) -> (out: Vec<u8>)
    requires
        snap.wf(),
    ensures
        out@ == spec_encode(*snap),
{
    let mut out: Vec<u8> = Vec::new();
    out.push(0x45);
    out.push(0x56);
    out.push(0x4F);
    out.push(0x53);
    out.push(0x4E);
    out.push(0x50);
    out.push(0x30);
    out.push(0x31);
    proof {
        assert(out@ =~= spec_magic());
        lemma_words_bytes_len(snap.mass@);
        lemma_words_bytes_len(snap.energy@);
        lemma_words_bytes_len(snap.genome_a@);
        lemma_words_bytes_len(snap.genome_b@);
        lemma_words_bytes_len(snap.resource@);
    }
    push_u32_le(&mut out, snap.width);
    push_u32_le(&mut out, snap.height);
    push_block(&mut out, &snap.mass);
    push_block(&mut out, &snap.energy);
    push_block(&mut out, &snap.genome_a);
    push_block(&mut out, &snap.genome_b);
    push_block(&mut out, &snap.resource);
    proof {
        assert(out@ =~= spec_encode(*snap));
    }
    out
}

} // verus!
