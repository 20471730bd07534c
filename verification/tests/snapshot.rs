use alan_core::snapshot::{
    frame_packed, from_unpacked, get_version, SnapshotError, SnapshotFault, SpinBits,
    StateSnapshot,
};
use std::f32::consts::PI;

fn bits(v: [f32; 3]) -> SpinBits {
    SpinBits { x: v[0].to_bits(), y: v[1].to_bits(), z: v[2].to_bits() }
}

fn reals(b: SpinBits) -> [f32; 3] {
    [f32::from_bits(b.x), f32::from_bits(b.y), f32::from_bits(b.z)]
}

#[test]
fn mod_test_version() {
    let (major, minor) = get_version();
    assert_eq!(major, 2);
    assert_eq!(minor, 0);
}

#[test]
fn test_snapshot_roundtrip() {
    // Create a simple snapshot
    let mut snapshot = StateSnapshot::new(3, 0.01f32.to_bits(), 0.00125f32.to_bits());

    // Set some values
    snapshot.theta[0] = 0.0f32.to_bits();
    snapshot.theta[1] = (PI / 2.0).to_bits();
    snapshot.theta[2] = PI.to_bits();

    snapshot.p_theta[0] = 0.1f32.to_bits();
    snapshot.p_theta[1] = 0.2f32.to_bits();
    snapshot.p_theta[2] = 0.3f32.to_bits();

    snapshot.sigma[0] = bits([1.0, 0.0, 0.0]);
    snapshot.sigma[1] = bits([0.0, 1.0, 0.0]);
    snapshot.sigma[2] = bits([0.0, 0.0, 1.0]);

    snapshot.p_sigma[0] = bits([0.01, 0.0, 0.0]);
    snapshot.p_sigma[1] = bits([0.0, 0.01, 0.0]);
    snapshot.p_sigma[2] = bits([0.0, 0.0, 0.01]);

    // Set lambda
    snapshot.lambda = Some(0.05f32.to_bits());

    // Serialization and deserialization
    let bytes = snapshot.to_bytes().unwrap();
    let decoded = StateSnapshot::from_bytes(&bytes).unwrap();

    // Verify values
    assert_eq!(decoded.n_oscillators(), 3);
    assert_eq!(f32::from_bits(decoded.dt_phase), 0.01);
    assert_eq!(f32::from_bits(decoded.dt_spin), 0.00125);
    assert_eq!(decoded.lambda.map(f32::from_bits), Some(0.05));

    assert_eq!(f32::from_bits(decoded.theta[0]), 0.0);
    assert_eq!(f32::from_bits(decoded.theta[1]), PI / 2.0);
    assert_eq!(f32::from_bits(decoded.theta[2]), PI);

    assert_eq!(f32::from_bits(decoded.p_theta[0]), 0.1);
    assert_eq!(f32::from_bits(decoded.p_theta[1]), 0.2);
    assert_eq!(f32::from_bits(decoded.p_theta[2]), 0.3);

    assert_eq!(reals(decoded.sigma[0]), [1.0, 0.0, 0.0]);
    assert_eq!(reals(decoded.sigma[1]), [0.0, 1.0, 0.0]);
    assert_eq!(reals(decoded.sigma[2]), [0.0, 0.0, 1.0]);

    assert_eq!(reals(decoded.p_sigma[0]), [0.01, 0.0, 0.0]);
    assert_eq!(reals(decoded.p_sigma[1]), [0.0, 0.01, 0.0]);
    assert_eq!(reals(decoded.p_sigma[2]), [0.0, 0.0, 0.01]);
}

#[test]
fn test_snapshot_compression() {
    // Create a larger snapshot to benefit from compression
    let n = 1000;
    let mut snapshot = StateSnapshot::new(n, 0.01f32.to_bits(), 0.00125f32.to_bits());

    // Set some repetitive values to get good compression
    for i in 0..n {
        snapshot.theta[i] = ((i as f32 % 10.0) * 0.1).to_bits();
        snapshot.p_theta[i] = 0.0f32.to_bits();
        snapshot.sigma[i] = bits([1.0, 0.0, 0.0]);
        snapshot.p_sigma[i] = bits([0.0, 0.0, 0.0]);
    }

    // Store with compression
    let stored = snapshot.to_stored_bytes(true).unwrap();
    let plain = snapshot.to_bytes().unwrap();
    assert_eq!(&stored[..5], b"ALSNZ");
    assert!(stored.len() < plain.len());

    // Load from the compressed bytes
    let loaded = StateSnapshot::from_stored_bytes(&stored).unwrap();

    // Verify values
    assert_eq!(loaded.n_oscillators(), n);
    for i in 0..n {
        assert!((f32::from_bits(loaded.theta[i]) - (i as f32 % 10.0) * 0.1).abs() < 1e-6);
    }
    assert_eq!(loaded.to_bytes().unwrap(), plain);
}

#[test]
fn snapshot_bytes_are_fixed() {
    let mut snapshot = StateSnapshot::new(1, 0x11223344, 0x55667788);
    snapshot.theta[0] = 1;
    snapshot.p_theta[0] = 2;
    snapshot.sigma[0] = SpinBits { x: 3, y: 4, z: 5 };
    snapshot.p_sigma[0] = SpinBits { x: 6, y: 7, z: 0x01020304 };
    let bytes = snapshot.to_bytes().unwrap();
    let mut expected = b"ALSN".to_vec();
    expected.extend_from_slice(&[0x00, 0x02]);
    expected.extend_from_slice(&[0x3D, 0x4C, 0x7B, 0x8A]);
    expected.push(0);
    expected.extend_from_slice(&[0x44, 0x33, 0x22, 0x11]);
    expected.extend_from_slice(&[0x88, 0x77, 0x66, 0x55]);
    expected.push(0);
    expected.extend_from_slice(&[1, 0, 0, 0]);
    for word in [1u32, 2, 3, 4, 5, 6, 7, 0x01020304] {
        expected.extend_from_slice(&word.to_le_bytes());
    }
    assert_eq!(bytes, expected);

    snapshot.lambda = Some(0xAABBCCDD);
    let bytes = snapshot.to_bytes().unwrap();
    assert_eq!(&bytes[19..24], &[1, 0xDD, 0xCC, 0xBB, 0xAA]);
    assert_eq!(bytes.len(), expected.len() + 4);
    let back = StateSnapshot::from_bytes(&bytes).unwrap();
    assert_eq!(back.lambda, Some(0xAABBCCDD));
    assert_eq!(back.p_sigma, snapshot.p_sigma);
}

#[test]
fn plain_snapshots_load_without_unpacking() {
    let snapshot = StateSnapshot::new(2, 5, 6);
    let stored = snapshot.to_stored_bytes(false).unwrap();
    assert_eq!(stored, snapshot.to_bytes().unwrap());
    let loaded = StateSnapshot::from_stored_bytes(&stored).unwrap();
    assert_eq!(loaded.theta, vec![0, 0]);
    assert_eq!((loaded.dt_phase, loaded.dt_spin, loaded.lambda), (5, 6, None));
}

#[test]
fn snapshot_faults() {
    let snapshot = StateSnapshot::new(2, 1, 2);
    let bytes = snapshot.to_bytes().unwrap();
    let too_small = SnapshotError::InvalidFormat(SnapshotFault::BufferTooSmall);
    assert_eq!(StateSnapshot::from_bytes(&bytes[..11]).err(), Some(too_small));
    assert_eq!(StateSnapshot::from_bytes(&bytes[..19]).err(), Some(too_small));
    assert_eq!(StateSnapshot::from_bytes(&bytes[..23]).err(), Some(too_small));
    assert_eq!(StateSnapshot::from_bytes(&bytes[..bytes.len() - 1]).err(), Some(too_small));
    assert!(StateSnapshot::from_bytes(&bytes).is_ok());

    let mut bad = bytes.clone();
    bad[3] = b'X';
    assert_eq!(
        StateSnapshot::from_bytes(&bad).err(),
        Some(SnapshotError::InvalidFormat(SnapshotFault::InvalidIdentifier))
    );
    let mut bad = bytes.clone();
    bad[4] = 1;
    bad[5] = 3;
    assert_eq!(
        StateSnapshot::from_bytes(&bad).err(),
        Some(SnapshotError::IncompatibleVersion(3, 1, 2, 0))
    );
    let mut bad = bytes.clone();
    bad[6] = 0;
    assert_eq!(
        StateSnapshot::from_bytes(&bad).err(),
        Some(SnapshotError::SchemaMismatch(0x8A7B4C00, 0x8A7B4C3D))
    );
    let mut bad = bytes.clone();
    bad[10] = 1;
    assert_eq!(
        StateSnapshot::from_bytes(&bad).err(),
        Some(SnapshotError::UnsupportedEndianness(1))
    );
    let mut uneven = StateSnapshot::new(2, 1, 2);
    uneven.p_theta.pop();
    assert!(!uneven.is_consistent());
    assert_eq!(
        uneven.to_bytes().err(),
        Some(SnapshotError::InvalidFormat(SnapshotFault::UnevenArrays))
    );
    assert_eq!(
        StateSnapshot::from_stored_bytes(b"ALSNZ not a frame").err(),
        Some(SnapshotError::DecompressionError)
    );
}

#[test]
fn packing_frames_what_the_compressor_returned() {
    assert_eq!(frame_packed(None).err(), Some(SnapshotError::CompressionError));
    assert_eq!(frame_packed(Some(vec![1, 2, 3])).unwrap(), b"ALSNZ\x01\x02\x03".to_vec());
    assert_eq!(from_unpacked(None).err(), Some(SnapshotError::DecompressionError));
    let snapshot = StateSnapshot::new(1, 3, 4);
    let back = from_unpacked(Some(snapshot.to_bytes().unwrap())).unwrap();
    assert_eq!((back.dt_phase, back.dt_spin, back.theta), (3, 4, vec![0]));
    assert_eq!(
        from_unpacked(Some(vec![1, 2, 3])).err(),
        Some(SnapshotError::InvalidFormat(SnapshotFault::BufferTooSmall))
    );
}
