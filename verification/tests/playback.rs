use alan_core::binding::{on_attractor_promoted, try_bind_to_elfin, ConceptError, ConceptGraph};
use alan_core::codec::DeltaEncoder;
use alan_core::format::ReaderError;
use alan_core::frame::{FrameData, BAND_MICRO};
use alan_core::player::{PlaybackStats, PsiPlayer};
use alan_core::reader::ArchiveReader;
use alan_core::writer::{process_frame, ArchiveWriter};
use std::collections::hash_map::DefaultHasher;
use std::hash::{Hash, Hasher};

fn archive(frames: u64, keyframe_interval: u64) -> Vec<u8> {
    let mut writer = ArchiveWriter::new();
    let mut encoder = DeltaEncoder::new(1, 1);
    let mut index = 0u64;
    let mut last = 0u64;
    writer.start(0);
    for i in 0..frames {
        let frame = FrameData {
            timestamp_ms: 0,
            frame_index: i,
            phases: vec![(i * 1000 % 65536) as u16 as i16],
            amplitudes: vec![(i % 100) as i16],
            emotions: vec![(i % 7) as i16],
            is_keyframe: i % keyframe_interval == 0,
            band: BAND_MICRO,
            processed: false,
        };
        process_frame(&mut writer, &frame, &mut encoder, 1000, &mut index, &mut last).unwrap();
    }
    writer.finish().unwrap()
}

fn player(frames: u64) -> PsiPlayer {
    let mut reader = ArchiveReader::new(1, 1);
    reader.open(archive(frames, 30)).unwrap();
    PsiPlayer::new(reader)
}

#[test]
fn a_paused_player_delivers_nothing() {
    let mut p = player(10);
    let mut out = Vec::new();
    assert_eq!(p.update(5, &mut out), Ok(()));
    assert!(out.is_empty());
    assert_eq!(p.get_position(), 0);
    assert!(!p.is_playing());
}

#[test]
fn frames_are_delivered_in_order_and_playback_stops_at_the_end() {
    let mut p = player(100);
    p.play();
    let mut out = Vec::new();
    assert_eq!(p.update(3, &mut out), Ok(()));
    assert_eq!(out.iter().map(|f| f.frame_index).collect::<Vec<_>>(), vec![0, 1, 2]);
    assert_eq!(
        p.get_stats(),
        PlaybackStats { position: 3, playing: true, buffer_size: 57 }
    );
    assert_eq!(p.update(90, &mut out), Ok(()));
    assert_eq!(out.len(), 93);
    assert_eq!(p.get_position(), 93);
    assert_eq!(p.update(20, &mut out), Ok(()));
    assert_eq!(out.len(), 100);
    for (i, frame) in out.iter().enumerate() {
        assert_eq!(frame.frame_index, i as u64);
        assert_eq!(frame.phases, vec![(i as u64 * 1000 % 65536) as u16 as i16]);
        assert_eq!(frame.amplitudes, vec![(i % 100) as i16]);
    }
    assert!(!p.is_playing());
    assert_eq!(p.get_position(), 100);
}

#[test]
fn seek_refills_the_buffer_from_the_new_position() {
    let mut p = player(100);
    assert_eq!(p.seek(100), Err(ReaderError::InvalidParameter));
    assert_eq!(p.get_position(), 0);
    assert_eq!(p.seek(75), Ok(()));
    assert_eq!(
        p.get_stats(),
        PlaybackStats { position: 75, playing: false, buffer_size: 25 }
    );
    p.play();
    let mut out = Vec::new();
    p.update(1, &mut out).unwrap();
    assert_eq!(out[0].frame_index, 75);
    assert_eq!(out[0].amplitudes, vec![75]);
    p.pause();
    assert_eq!(p.update(1, &mut out), Ok(()));
    assert_eq!(out.len(), 1);
    p.stop();
    assert_eq!(
        p.get_stats(),
        PlaybackStats { position: 0, playing: false, buffer_size: 0 }
    );
    assert_eq!(p.preload_buffer(), Ok(()));
    assert_eq!(p.get_stats().buffer_size, 60);
}

#[test]
fn a_damaged_chunk_ends_the_delivery_with_its_error() {
    let mut bytes = archive(5, 30);
    // Header 19, chunks of 12 bytes each: damage the payload of the fourth.
    bytes[19 + 3 * 12 + 2] ^= 0xFF;
    let mut reader = ArchiveReader::new(1, 1);
    reader.open(bytes).unwrap();
    let mut p = PsiPlayer::new(reader);
    p.play();
    let mut out = Vec::new();
    assert!(p.update(5, &mut out).is_err());
    assert!(p.is_playing());
    // The frames before the damaged one are buffered and can still be had.
    assert_eq!(p.get_stats().buffer_size, 3);
    assert_eq!(p.update(3, &mut out), Ok(()));
    assert_eq!(out.iter().map(|f| f.frame_index).collect::<Vec<_>>(), vec![0, 1, 2]);
    assert!(p.update(1, &mut out).is_err());
    assert_eq!(p.get_position(), 3);
}

#[test]
fn psi_sync_monitor_test_bind_to_elfin() {
    let mut graph = ConceptGraph::new();
    // A symbol known under a hash.
    graph.ensure_node(7);
    graph.set_meta(7, "elfin_name", "wheelDiameter").unwrap();
    graph.set_meta(7, "elfin_unit", "m").unwrap();
    graph.register_hash(0xABCD, 7);
    // A node for a promoted attractor.
    graph.ensure_node(1);
    graph.set_meta(1, "elfin_unit", "mm").unwrap();
    graph.set_meta(1, "stability", "0.9").unwrap();

    let (bound, name) = on_attractor_promoted(&mut graph, 1, 0xABCD);
    assert!(bound);
    assert_eq!(name, Some("wheelDiameter".to_string()));
    assert_eq!(graph.get_meta(1, "elfin_name"), Some("wheelDiameter".to_string()));
    assert_eq!(graph.get_meta(1, "elfin_unit"), Some("m".to_string()));
    assert_eq!(graph.get_meta(1, "stability"), Some("0.9".to_string()));
    assert_eq!(graph.get_meta(1, "source"), Some("ELFIN".to_string()));
    // The symbol's node is as it was.
    assert_eq!(graph.get_meta(7, "source"), None);
    assert_eq!(graph.get_meta(7, "elfin_unit"), Some("m".to_string()));
}

#[test]
fn a_miss_changes_nothing() {
    let mut graph = ConceptGraph::new();
    graph.ensure_node(1);
    graph.set_meta(1, "stability", "0.9").unwrap();
    assert!(!try_bind_to_elfin(&mut graph, 1, 0x1234));
    assert_eq!(graph.get_meta(1, "source"), None);
    assert_eq!(graph.get_meta(1, "stability"), Some("0.9".to_string()));
    // A hash registered for a node that does not exist binds nothing either.
    graph.register_hash(0x1234, 99);
    assert_eq!(graph.lookup_hash(0x1234), Some(99));
    assert_eq!(on_attractor_promoted(&mut graph, 1, 0x1234), (false, None));
    assert_eq!(graph.get_meta(1, "source"), None);
    // Nor does a missing attractor node.
    graph.ensure_node(99);
    assert!(!try_bind_to_elfin(&mut graph, 2, 0x1234));
    assert!(!graph.has_node(2));
}

#[test]
fn graph_operations_report_missing_nodes() {
    let mut graph = ConceptGraph::new();
    assert_eq!(graph.set_meta(5, "a", "b"), Err(ConceptError::NotFound(5)));
    assert_eq!(graph.get_meta(5, "a"), None);
    assert_eq!(graph.lookup_hash(1), None);
    graph.ensure_node(5);
    graph.ensure_node(5);
    assert_eq!(graph.merge(6, 5), Err(ConceptError::NotFound(6)));
    assert_eq!(graph.merge(5, 6), Err(ConceptError::NotFound(6)));
    graph.set_meta(5, "a", "b").unwrap();
    graph.set_meta(5, "a", "c").unwrap();
    assert_eq!(graph.get_meta(5, "a"), Some("c".to_string()));
    assert_eq!(graph.merge(5, 5), Ok(()));
    assert_eq!(graph.get_meta(5, "a"), Some("c".to_string()));
}

fn signature_hash(signature: &[f32]) -> u64 {
    let text = format!("{:.3?}", signature);
    let mut hasher = DefaultHasher::new();
    text.hash(&mut hasher);
    hasher.finish()
}

#[test]
fn psi_reader_test_bind_to_elfin() {
    // Mock signature that would hash to a known ELFIN symbol
    let mock_sig = vec![0.1f32, 0.2, 0.3, 0.4];

    // Create a node
    let mut graph = ConceptGraph::new();
    let node = 42;
    graph.ensure_node(node);

    // Try to bind: no symbol is known under the hash, so nothing changes
    let (bound, name) = on_attractor_promoted(&mut graph, node, signature_hash(&mock_sig));
    assert!(!bound);
    assert_eq!(name, None);
    assert_eq!(graph.get_meta(node, "source"), None);

    // With the symbol registered under the hash the node is bound
    graph.ensure_node(7);
    graph.set_meta(7, "elfin_name", "wheelDiameter").unwrap();
    graph.register_hash(signature_hash(&mock_sig), 7);
    let (bound, name) = on_attractor_promoted(&mut graph, node, signature_hash(&mock_sig));
    assert!(bound);
    assert_eq!(name, Some("wheelDiameter".to_string()));
    assert_eq!(graph.get_meta(node, "elfin_name"), Some("wheelDiameter".to_string()));
    // Signatures that print alike hash alike.
    assert_eq!(signature_hash(&[0.1, 0.2]), signature_hash(&[0.1001, 0.2001]));
}
