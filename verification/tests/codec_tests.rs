use evolenia::state_io::{load_snapshot, save_snapshot, SnapshotError};
use evolenia::world::BufferSnapshot;
use evolenia::worldgen::generate_world;

fn tiny_snapshot() -> BufferSnapshot {
    BufferSnapshot {
        width: 2,
        height: 2,
        mass: vec![1, 2, 3, 0xDEAD_BEEF],
        energy: vec![5, 6, 7, 8],
        genome_a: (0u32..16).collect(),
        genome_b: vec![9, 10, 11, 12],
        resource: vec![13, 14, 15, u32::MAX],
    }
}

#[test]
fn round_trip_is_bit_exact() {
    let snap = tiny_snapshot();
    let bytes = save_snapshot(&snap);
    let back = load_snapshot(&bytes, 2, 2).expect("round trip must load");
    assert_eq!(back.width, 2);
    assert_eq!(back.height, 2);
    assert_eq!(back.mass, snap.mass);
    assert_eq!(back.energy, snap.energy);
    assert_eq!(back.genome_a, snap.genome_a);
    assert_eq!(back.genome_b, snap.genome_b);
    assert_eq!(back.resource, snap.resource);
}

#[test]
fn round_trip_of_a_generated_world() {
    let snap = generate_world(7, 48, 32);
    let bytes = save_snapshot(&snap);
    let back = load_snapshot(&bytes, 48, 32).expect("generated world must reload");
    assert_eq!(back.mass, snap.mass);
    assert_eq!(back.energy, snap.energy);
    assert_eq!(back.genome_a, snap.genome_a);
    assert_eq!(back.genome_b, snap.genome_b);
    assert_eq!(back.resource, snap.resource);
}

#[test]
fn container_layout_is_stable() {
    let snap = tiny_snapshot();
    let bytes = save_snapshot(&snap);
    assert_eq!(&bytes[0..8], b"EVOSNP01");
    assert_eq!(&bytes[8..12], &2u32.to_le_bytes());
    assert_eq!(&bytes[12..16], &2u32.to_le_bytes());
    assert_eq!(&bytes[16..24], &4u64.to_le_bytes());
    assert_eq!(&bytes[24..28], &1u32.to_le_bytes());
    // Five arrays of four bytes per word, each with an 8-byte count.
    assert_eq!(bytes.len(), 16 + 5 * 8 + 4 * (4 + 4 + 16 + 4 + 4));
}

#[test]
fn trailing_bytes_are_ignored() {
    let snap = tiny_snapshot();
    let mut bytes = save_snapshot(&snap);
    bytes.push(0xAB);
    bytes.push(0xCD);
    let back = load_snapshot(&bytes, 2, 2).expect("trailing bytes are not part of the container");
    assert_eq!(back.mass, snap.mass);
}

#[test]
fn bad_magic_is_a_hard_parse_error() {
    let snap = tiny_snapshot();
    let mut bytes = save_snapshot(&snap);
    bytes[0] = b'X';
    assert_eq!(load_snapshot(&bytes, 2, 2), Err(SnapshotError::BadMagic));
}

#[test]
fn truncated_container_is_rejected() {
    let snap = tiny_snapshot();
    let bytes = save_snapshot(&snap);
    assert_eq!(load_snapshot(&bytes[..3].to_vec(), 2, 2), Err(SnapshotError::Truncated));
    assert_eq!(load_snapshot(&bytes[..14].to_vec(), 2, 2), Err(SnapshotError::Truncated));
    assert_eq!(
        load_snapshot(&bytes[..bytes.len() - 1].to_vec(), 2, 2),
        Err(SnapshotError::Truncated)
    );
}

#[test]
fn count_contradicting_dimensions_is_rejected() {
    let bad = BufferSnapshot {
        width: 2,
        height: 2,
        mass: vec![1, 2, 3],
        energy: vec![5, 6, 7, 8],
        genome_a: (0u32..16).collect(),
        genome_b: vec![9, 10, 11, 12],
        resource: vec![13, 14, 15, 16],
    };
    let bytes = save_snapshot(&bad);
    assert_eq!(load_snapshot(&bytes, 2, 2), Err(SnapshotError::CountMismatch));
}

#[test]
fn dimension_mismatch_falls_back_to_a_fresh_valid_world() {
    // A snapshot written for a 512 x 512 grid must not load into a
    // 1024 x 1024 store.
    let n = 512 * 512;
    let snap = BufferSnapshot {
        width: 512,
        height: 512,
        mass: vec![0; n],
        energy: vec![0; n],
        genome_a: vec![0; 4 * n],
        genome_b: vec![0; n],
        resource: vec![0; n],
    };
    let bytes = save_snapshot(&snap);
    assert_eq!(
        load_snapshot(&bytes, 1024, 1024),
        Err(SnapshotError::DimensionMismatch)
    );

    // The caller's fallback path: a freshly generated world, whose growth
    // widths are all nonzero.
    let fresh = generate_world(99, 64, 64);
    for i in 0..(64 * 64) {
        assert!(fresh.genome_a[4 * i + 2] > 0);
    }
}
