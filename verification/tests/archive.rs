use alan_core::codec::{
    apply_level_delta, apply_phase_delta, encode_level_delta, encode_phase_delta, is_keyframe,
    DeltaDecoder, DeltaEncoder,
};
use alan_core::format::{
    parse_header, scan_chunks, write_chunk_bytes, write_end_marker, write_header, FormatFault,
    ReaderError, StreamHeader,
};
use alan_core::frame::{FrameData, BAND_AUDIO_PCM, BAND_MACRO, BAND_MESO, BAND_MICRO};
use alan_core::leb128::{read_leb128, write_leb128, LebError};
use alan_core::reader::ArchiveReader;
use alan_core::writer::{build_payload, process_frame, ArchiveWriter, WriterError};

fn frame(index: u64, keyframe: bool, phases: &[i16], amplitudes: &[i16], emotions: &[i16]) -> FrameData {
    FrameData {
        timestamp_ms: 0,
        frame_index: index,
        phases: phases.to_vec(),
        amplitudes: amplitudes.to_vec(),
        emotions: emotions.to_vec(),
        is_keyframe: keyframe,
        band: BAND_MICRO,
        processed: false,
    }
}

fn record(start: u64, oscillators: usize, emotions: usize, frames: &[FrameData]) -> Vec<u8> {
    let mut writer = ArchiveWriter::new();
    let mut encoder = DeltaEncoder::new(oscillators, emotions);
    let mut frame_index = 0u64;
    let mut last_flush = 0u64;
    let mut out = Vec::new();
    writer.start(start);
    for f in frames {
        let flush = process_frame(&mut writer, f, &mut encoder, 300, &mut frame_index, &mut last_flush)
            .unwrap();
        if flush {
            out.extend_from_slice(&writer.take_pending());
        }
    }
    out.extend_from_slice(&writer.finish().unwrap());
    out
}

#[test]
fn phase_wrap_round_trips_for_every_pair_on_a_grid() {
    let samples: Vec<i16> = (-32768i32..=32767).step_by(257).map(|x| x as i16)
        .chain([i16::MIN, -1, 0, 1, i16::MAX, 32000, -32536])
        .collect();
    for &a in &samples {
        for &b in &samples {
            let delta = encode_phase_delta(a, b);
            assert_eq!(apply_phase_delta(a, delta), b, "a = {}, b = {}", a, b);
            assert_eq!(delta, b.wrapping_sub(a));
        }
    }
}

#[test]
fn phase_delta_examples() {
    assert_eq!(encode_phase_delta(32000, -32536), 1000);
    assert_eq!(apply_phase_delta(32000, 1000), -32536);
    assert_eq!(encode_phase_delta(0, -32768), -32768);
    assert_eq!(encode_phase_delta(-32768, 0), -32768);
    assert_eq!(encode_phase_delta(-32768, 32767), -1);
    assert_eq!(encode_phase_delta(32767, -32768), 1);
    assert_eq!(apply_phase_delta(-32768, -1), 32767);
}

#[test]
fn level_deltas_saturate_on_decode() {
    assert_eq!(encode_level_delta(100, 32767), 32667);
    assert_eq!(encode_level_delta(32767, 0), -32767);
    assert_eq!(apply_level_delta(100, 32667), 32767);
    assert_eq!(apply_level_delta(32000, 1000), 32767);
    assert_eq!(apply_level_delta(-32000, -1000), -32768);
    assert_eq!(apply_level_delta(5, -3), 2);
}

#[test]
fn keyframes_come_at_multiples_of_the_interval() {
    assert!(is_keyframe(0, 300));
    assert!(!is_keyframe(1, 300));
    assert!(!is_keyframe(299, 300));
    assert!(is_keyframe(300, 300));
    assert!(is_keyframe(600, 300));
    assert!(!is_keyframe(750, 300));
    assert!(is_keyframe(7, 1));
}

#[test]
fn encoder_and_decoder_stay_in_step() {
    let mut encoder = DeltaEncoder::new(3, 2);
    let mut decoder = DeltaDecoder::new(3, 2);
    let frames: [([i16; 3], [i16; 3], [i16; 2]); 3] = [
        ([32000, -32000, 0], [0, 32767, 16000], [1, 2]),
        ([-32536, 32000, 5], [32767, 0, 16001], [0, 32767]),
        ([0, 0, 0], [1, 1, 1], [32767, 0]),
    ];
    for (phases, amplitudes, emotions) in frames {
        assert!(encoder.can_encode(&amplitudes, &emotions));
        let mut dp = [0i16; 3];
        let mut da = [0i16; 3];
        let mut de = [0i16; 2];
        encoder.encode_phases(&phases, &mut dp);
        encoder.encode_amplitudes(&amplitudes, &mut da);
        encoder.encode_emotions(&emotions, &mut de);
        let mut p = [0i16; 3];
        let mut a = [0i16; 3];
        let mut e = [0i16; 2];
        decoder.apply_phase_deltas(&dp, &mut p);
        decoder.apply_amplitude_deltas(&da, &mut a);
        decoder.apply_emotion_deltas(&de, &mut e);
        assert_eq!(p, phases);
        assert_eq!(a, amplitudes);
        assert_eq!(e, emotions);
    }
    encoder.reset();
    let mut dp = [0i16; 3];
    encoder.encode_phases(&[5, 6, 7], &mut dp);
    assert_eq!(dp, [5, 6, 7]);
    encoder.set_state(&[1, 1, 1], &[0, 0, 0], &[0, 0]);
    encoder.encode_phases(&[5, 6, 7], &mut dp);
    assert_eq!(dp, [4, 5, 6]);
    assert!(encoder.can_encode(&[-32768, 0, 0], &[0, 0]));
    decoder.reset();
    decoder.set_state_from_data(&[10, 10, 10], &[0, 0, 0], &[0, 0]);
    let mut p = [0i16; 3];
    decoder.apply_phase_deltas(&[1, 2], &mut p);
    assert_eq!(p, [11, 12, 0]);
}

#[test]
fn encoder_refuses_level_steps_that_do_not_fit() {
    let mut encoder = DeltaEncoder::new(1, 1);
    encoder.set_state(&[0], &[-20000], &[0]);
    assert!(!encoder.can_encode(&[20000], &[0]));
    assert!(encoder.can_encode(&[12767], &[0]));
    assert!(encoder.can_encode(&[0], &[-32768]));
    assert!(!encoder.can_encode(&[12768], &[0]));
}

#[test]
fn leb128_examples() {
    let cases: [(u32, &[u8]); 7] = [
        (0, &[0x00]),
        (1, &[0x01]),
        (127, &[0x7F]),
        (128, &[0x80, 0x01]),
        (300, &[0xAC, 0x02]),
        (16384, &[0x80, 0x80, 0x01]),
        (u32::MAX, &[0xFF, 0xFF, 0xFF, 0xFF, 0x0F]),
    ];
    for (value, bytes) in cases {
        let mut out = vec![0xEE];
        write_leb128(&mut out, value);
        assert_eq!(&out[1..], bytes);
        out.push(0x55);
        assert_eq!(read_leb128(&out, 1), Ok((value as u64, bytes.len())));
    }
}

#[test]
fn leb128_faults() {
    assert_eq!(read_leb128(&[], 0), Err(LebError::Truncated));
    assert_eq!(read_leb128(&[0x80], 0), Err(LebError::Truncated));
    assert_eq!(read_leb128(&[0x01], 1), Err(LebError::Truncated));
    assert_eq!(read_leb128(&[0x01], 7), Err(LebError::Truncated));
    assert_eq!(read_leb128(&[0x80, 0x80, 0x80, 0x80], 0), Err(LebError::Truncated));
    assert_eq!(
        read_leb128(&[0x80, 0x80, 0x80, 0x80, 0x80], 0),
        Err(LebError::Overflow)
    );
    assert_eq!(
        read_leb128(&[0x80, 0x80, 0x80, 0x80, 0x80, 0x01], 0),
        Err(LebError::Overflow)
    );
    assert_eq!(
        read_leb128(&[0xFF, 0xFF, 0xFF, 0xFF, 0x7F], 0),
        Ok((0x7_FFFF_FFFF, 5))
    );
    assert_eq!(read_leb128(&[0x80, 0x00], 0), Ok((0, 2)));
}

#[test]
fn header_bytes_are_fixed() {
    let mut out = Vec::new();
    write_header(&mut out, 0x0102030405060708);
    assert_eq!(out.len(), 19);
    assert_eq!(&out[..5], &[0xCE, 0xA8, 0x41, 0x52, 0x43]);
    assert_eq!(&out[5..7], &[1, 0]);
    assert_eq!(&out[7..15], &[8, 7, 6, 5, 4, 3, 2, 1]);
    let crc = u32::from_le_bytes([out[15], out[16], out[17], out[18]]);
    assert_eq!(crc, crc32fast::hash(&out[..15]));
    assert_eq!(
        parse_header(&out),
        Ok(StreamHeader { version: 1, start_timestamp_ms: 0x0102030405060708, header_crc: crc })
    );
}

#[test]
fn a_flipped_byte_in_the_header_is_noticed() {
    let mut out = Vec::new();
    write_header(&mut out, 1234567);
    for i in 0..out.len() {
        for mask in [0x01u8, 0x80, 0xFF] {
            let mut damaged = out.clone();
            damaged[i] ^= mask;
            assert!(parse_header(&damaged).is_err(), "byte {} mask {:#x}", i, mask);
        }
    }
    let mut damaged = out.clone();
    damaged[0] = 0;
    assert_eq!(parse_header(&damaged), Err(ReaderError::InvalidFormat(FormatFault::BadMagic)));
    let mut damaged = out.clone();
    damaged[5] = 2;
    assert_eq!(parse_header(&damaged), Err(ReaderError::UnsupportedVersion(2)));
    let mut damaged = out.clone();
    damaged[9] ^= 1;
    assert_eq!(
        parse_header(&damaged),
        Err(ReaderError::InvalidFormat(FormatFault::HeaderCrcMismatch))
    );
    assert_eq!(
        parse_header(&out[..18]),
        Err(ReaderError::InvalidFormat(FormatFault::FileTooSmall))
    );
}

#[test]
fn chunk_bytes_are_fixed() {
    let mut out = Vec::new();
    write_chunk_bytes(&mut out, BAND_MICRO, true, b"123456789");
    assert_eq!(out[0], 0x81);
    assert_eq!(out[1], 9);
    assert_eq!(&out[2..11], b"123456789");
    // The check value of CRC-32/IEEE.
    assert_eq!(&out[11..], &[0x26, 0x39, 0xF4, 0xCB]);
    let mut out = Vec::new();
    write_chunk_bytes(&mut out, BAND_MESO, false, &[]);
    assert_eq!(out, vec![0x02, 0, 0, 0, 0, 0]);
    let mut out = Vec::new();
    write_end_marker(&mut out);
    assert_eq!(out, vec![0xFF, 0x00]);
}

#[test]
fn payload_layout_is_phases_amplitudes_emotions() {
    assert_eq!(
        build_payload(&[1, -2], &[0x0102, 3], &[-32768]),
        vec![1, 0, 0xFE, 0xFF, 2, 1, 3, 0, 0x00, 0x80]
    );
}

#[test]
fn writer_refuses_before_start() {
    let mut writer = ArchiveWriter::new();
    assert!(!writer.started());
    assert_eq!(writer.write_chunk(BAND_MICRO, true, &[1, 2]), Err(WriterError::NotStarted));
    assert!(writer.take_pending().is_empty());
    let mut encoder = DeltaEncoder::new(1, 1);
    let mut index = 0;
    let mut last = 0;
    let f = frame(0, true, &[1], &[2], &[3]);
    assert_eq!(
        process_frame(&mut writer, &f, &mut encoder, 10, &mut index, &mut last),
        Err(WriterError::NotStarted)
    );
    assert_eq!(index, 1);
    assert_eq!(writer.finish().err(), Some(WriterError::NotStarted));
}

#[test]
fn flush_is_due_every_interval_frames() {
    let mut writer = ArchiveWriter::new();
    writer.start(0);
    let mut encoder = DeltaEncoder::new(1, 1);
    let mut index = 0;
    let mut last = 0;
    let mut due = Vec::new();
    for i in 0..7u64 {
        let f = frame(i, i == 0, &[i as i16], &[0], &[0]);
        due.push(process_frame(&mut writer, &f, &mut encoder, 3, &mut index, &mut last).unwrap());
    }
    assert_eq!(due, vec![false, false, true, false, false, true, false]);
    assert_eq!(index, 7);
    assert_eq!(last, 6);
}

#[test]
fn archive_round_trip_with_phase_wrap() {
    // A keyframe with phase 32000, then a delta frame that wraps across the top.
    let frames = [
        frame(0, true, &[32000], &[100], &[7]),
        frame(1, false, &[-32536], &[90], &[8]),
    ];
    let bytes = record(1000, 1, 1, &frames);
    let mut expected = Vec::new();
    write_header(&mut expected, 1000);
    write_chunk_bytes(&mut expected, BAND_MICRO, true, &build_payload(&[32000], &[100], &[7]));
    write_chunk_bytes(&mut expected, BAND_MICRO, false, &build_payload(&[1000], &[-10], &[1]));
    write_end_marker(&mut expected);
    assert_eq!(bytes, expected);

    let mut reader = ArchiveReader::new(1, 1);
    reader.open(bytes).unwrap();
    assert_eq!(reader.frame_count(), 2);
    let first = reader.read_frame(0).unwrap();
    assert_eq!(first.phases, vec![32000]);
    assert!(first.is_keyframe);
    assert_eq!(first.timestamp_ms, 1000);
    let second = reader.read_frame(1).unwrap();
    assert_eq!(second.phases, vec![-32536]);
    assert_eq!(second.phases[0], 32000i16.wrapping_add(1000));
    assert_eq!(second.amplitudes, vec![90]);
    assert_eq!(second.emotions, vec![8]);
    assert!(!second.is_keyframe);
    assert_eq!(second.frame_index, 1);
    assert_eq!(second.timestamp_ms, 1016);
    assert_eq!(second.band, BAND_MICRO);
}

fn thousand_frames() -> Vec<FrameData> {
    (0..1000u64)
        .map(|i| {
            let phases: Vec<i16> = (0..4).map(|k| ((i * 977 + k * 12345) % 65536) as u16 as i16).collect();
            let amplitudes: Vec<i16> = (0..4).map(|k| ((i * 31 + k * 7919) % 32768) as i16).collect();
            let emotions: Vec<i16> = (0..3).map(|k| ((i * 17 + k * 104729) % 32768) as i16).collect();
            frame(i, i % 300 == 0, &phases, &amplitudes, &emotions)
        })
        .collect()
}

#[test]
fn reader_seek() {
    let frames = thousand_frames();
    let bytes = record(5, 4, 3, &frames);
    let mut reader = ArchiveReader::new(4, 3);
    reader.open(bytes).unwrap();
    assert_eq!(reader.frame_count(), 1000);
    assert_eq!(reader.duration_ms(), 5 + 999 * 16);
    assert!(!reader.is_cached(600));
    let got = reader.read_frame(750).unwrap();
    assert_eq!(got.phases, frames[750].phases);
    assert_eq!(got.amplitudes, frames[750].amplitudes);
    assert_eq!(got.emotions, frames[750].emotions);
    assert_eq!(got.frame_index, 750);
    assert_eq!(got.timestamp_ms, 5 + 750 * 16);
    assert!(!got.is_keyframe);
    assert!(reader.is_cached(600));
    assert!(!reader.is_cached(300));
    assert!(!reader.is_cached(750));
}

#[test]
fn every_frame_reads_back_as_written() {
    let frames = thousand_frames();
    let bytes = record(0, 4, 3, &frames);
    let mut reader = ArchiveReader::new(4, 3);
    reader.open(bytes).unwrap();
    for i in (0..1000).step_by(37).chain([0, 299, 300, 301, 599, 600, 899, 900, 999]) {
        let got = reader.read_frame(i as u64).unwrap();
        assert_eq!(got.phases, frames[i].phases, "frame {}", i);
        assert_eq!(got.amplitudes, frames[i].amplitudes, "frame {}", i);
        assert_eq!(got.emotions, frames[i].emotions, "frame {}", i);
        assert_eq!(got.is_keyframe, i % 300 == 0);
    }
}

#[test]
fn keyframe_cache_is_bounded_and_first_in_first_out() {
    let frames: Vec<FrameData> = (0..12u64)
        .map(|i| frame(i, true, &[i as i16], &[1], &[2]))
        .collect();
    let bytes = record(0, 1, 1, &frames);
    let mut reader = ArchiveReader::new(1, 1);
    reader.open(bytes).unwrap();
    reader.set_max_keyframe_cache(3);
    for i in 0..5 {
        assert_eq!(reader.read_frame(i).unwrap().phases, vec![i as i16]);
    }
    assert!(!reader.is_cached(0));
    assert!(!reader.is_cached(1));
    assert!(reader.is_cached(2));
    assert!(reader.is_cached(3));
    assert!(reader.is_cached(4));
    // A cached keyframe comes back unchanged and keeps its place.
    assert_eq!(reader.read_frame(2).unwrap().phases, vec![2]);
    assert_eq!(reader.read_frame(5).unwrap().phases, vec![5]);
    assert!(!reader.is_cached(2));
    assert!(reader.is_cached(5));
}

#[test]
fn a_flipped_byte_in_a_payload_fails_the_chunk() {
    let frames = [
        frame(0, true, &[1, 2], &[3, 4], &[5]),
        frame(1, false, &[2, 3], &[4, 5], &[6]),
    ];
    let bytes = record(0, 2, 1, &frames);
    // Header 19, then per chunk: tag, length, 10 payload bytes, 4 checksum bytes.
    let first_payload = 19 + 2;
    let second_payload = 19 + 16 + 2;
    for offset in 0..10 {
        let mut damaged = bytes.clone();
        damaged[first_payload + offset] ^= 0x40;
        let mut reader = ArchiveReader::new(2, 1);
        reader.open(damaged).unwrap();
        assert_eq!(
            reader.read_frame(0).err(),
            Some(ReaderError::InvalidFormat(FormatFault::ChunkCrcMismatch))
        );
        assert_eq!(
            reader.read_frame(1).err(),
            Some(ReaderError::InvalidFormat(FormatFault::ChunkCrcMismatch))
        );

        let mut damaged = bytes.clone();
        damaged[second_payload + offset] ^= 0x40;
        let mut reader = ArchiveReader::new(2, 1);
        reader.open(damaged).unwrap();
        // Frames decoded from undamaged chunks stay valid.
        assert_eq!(reader.read_frame(0).unwrap().phases, vec![1, 2]);
        assert_eq!(
            reader.read_frame(1).err(),
            Some(ReaderError::InvalidFormat(FormatFault::ChunkCrcMismatch))
        );
    }
    // Damage to the stored checksum itself is noticed as well.
    for offset in 10..14 {
        let mut damaged = bytes.clone();
        damaged[first_payload + offset] ^= 0x01;
        let mut reader = ArchiveReader::new(2, 1);
        reader.open(damaged).unwrap();
        assert_eq!(
            reader.read_frame(0).err(),
            Some(ReaderError::InvalidFormat(FormatFault::ChunkCrcMismatch))
        );
    }
}

#[test]
fn reader_faults() {
    let frames = [frame(0, true, &[1, 2], &[3, 4], &[5])];
    let bytes = record(0, 2, 1, &frames);

    let mut reader = ArchiveReader::new(2, 1);
    assert_eq!(reader.read_frame(0).err(), Some(ReaderError::SeekError));
    assert_eq!(reader.frame_count(), 0);
    assert_eq!(reader.duration_ms(), 0);
    assert_eq!(
        reader.open(bytes[..10].to_vec()),
        Err(ReaderError::InvalidFormat(FormatFault::FileTooSmall))
    );
    // The chunk is cut short.
    assert_eq!(
        reader.open(bytes[..30].to_vec()),
        Err(ReaderError::InvalidFormat(FormatFault::ChunkBeyondEnd))
    );
    // The data end inside the length.
    assert_eq!(
        reader.open(bytes[..20].to_vec()),
        Err(ReaderError::InvalidFormat(FormatFault::TruncatedLength))
    );
    let mut overlong = bytes[..20].to_vec();
    overlong.extend_from_slice(&[0x80, 0x80, 0x80, 0x80, 0x80, 0x00]);
    assert_eq!(
        reader.open(overlong),
        Err(ReaderError::InvalidFormat(FormatFault::LengthOverflow))
    );
    assert_eq!(reader.frame_count(), 0);

    // A reader for larger frames finds the payload too short.
    let mut wide = ArchiveReader::new(3, 1);
    wide.open(bytes.clone()).unwrap();
    assert_eq!(
        wide.read_frame(0).err(),
        Some(ReaderError::InvalidFormat(FormatFault::PayloadTooShort))
    );

    // No keyframe at or before the frame asked for.
    let mut writer = ArchiveWriter::new();
    writer.start(0);
    writer.write_chunk(BAND_MICRO, false, &build_payload(&[1, 2], &[3, 4], &[5])).unwrap();
    let orphan = writer.finish().unwrap();
    let mut reader = ArchiveReader::new(2, 1);
    reader.open(orphan).unwrap();
    assert_eq!(reader.read_frame(0).err(), Some(ReaderError::SeekError));
    assert_eq!(ReaderError::SeekError.message(), "No keyframe found before frame");
}

#[test]
fn scan_describes_every_chunk() {
    let mut writer = ArchiveWriter::new();
    writer.start(100);
    writer.write_chunk(BAND_MICRO, true, &[1, 2, 3, 4]).unwrap();
    writer.write_chunk(BAND_AUDIO_PCM, false, &[9; 200]).unwrap();
    writer.write_chunk(BAND_MICRO, false, &[5, 6, 7, 8]).unwrap();
    writer.write_chunk(BAND_MESO, true, &[]).unwrap();
    writer.write_chunk(BAND_MACRO, true, &[1]).unwrap();
    let mut bytes = writer.finish().unwrap();
    bytes.extend_from_slice(&[1, 2, 3]);
    let index = scan_chunks(&bytes, 100).unwrap();
    let seen: Vec<(u64, u8, bool, usize, u64, u64)> = index
        .all_chunks
        .iter()
        .map(|c| (c.offset, c.chunk_type, c.is_keyframe, c.data_size, c.timestamp_ms, c.frame_index))
        .collect();
    assert_eq!(
        seen,
        vec![
            (21, BAND_MICRO, true, 4, 100, 0),
            (32, BAND_AUDIO_PCM, false, 200, 116, 1),
            (238, BAND_MICRO, false, 4, 116, 1),
            (248, BAND_MESO, true, 0, 132, 2),
            (254, BAND_MACRO, true, 1, 148, 3),
        ]
    );
    assert_eq!(index.keyframes, vec![0, 3, 4]);
}

#[test]
fn meso_and_macro_frames_are_stored_whole() {
    let mut meso = frame(1, false, &[7], &[8], &[9]);
    meso.band = BAND_MESO;
    let mut makro = frame(2, false, &[-7], &[18], &[19]);
    makro.band = BAND_MACRO;
    let mut other = frame(3, false, &[0], &[0], &[0]);
    other.band = 0x42;
    let frames = [frame(0, true, &[1], &[2], &[3]), meso, makro, other];
    let bytes = record(0, 1, 1, &frames);
    let mut reader = ArchiveReader::new(1, 1);
    reader.open(bytes).unwrap();
    // The frame of an unknown band leaves no chunk.
    assert_eq!(reader.frame_count(), 3);
    let got = reader.read_frame(1).unwrap();
    assert_eq!((got.band, got.is_keyframe, got.phases), (BAND_MESO, true, vec![7]));
    let got = reader.read_frame(2).unwrap();
    assert_eq!((got.band, got.is_keyframe, got.phases), (BAND_MACRO, true, vec![-7]));
}

#[test]
fn frame_buffers_reset_to_blank() {
    let mut f = frame(9, true, &[1, 2], &[3, 4], &[5]);
    f.timestamp_ms = 77;
    f.band = BAND_MACRO;
    f.processed = true;
    let copy = f.duplicate();
    assert_eq!(copy.phases, f.phases);
    assert_eq!(copy.frame_index, 9);
    f.reset();
    assert_eq!(f.phases, vec![0, 0]);
    assert_eq!(f.amplitudes, vec![0, 0]);
    assert_eq!(f.emotions, vec![0]);
    assert_eq!((f.timestamp_ms, f.frame_index, f.is_keyframe, f.band, f.processed), (0, 0, false, BAND_MICRO, false));
    let blank = FrameData::new(2, 1);
    assert_eq!(blank.phases, f.phases);
    assert_eq!(blank.band, BAND_MICRO);
}

#[test]
fn audio_chunks_between_frames_are_passed_over() {
    let mut writer = ArchiveWriter::new();
    writer.start(0);
    writer.write_chunk(BAND_MICRO, true, &build_payload(&[100], &[10], &[1])).unwrap();
    writer.write_chunk(BAND_AUDIO_PCM, false, &[0x55; 33]).unwrap();
    writer.write_chunk(BAND_MICRO, false, &build_payload(&[5], &[-3], &[2])).unwrap();
    writer.write_chunk(BAND_AUDIO_PCM, false, &[0x66; 7]).unwrap();
    writer.write_chunk(BAND_MICRO, false, &build_payload(&[-7], &[1], &[0])).unwrap();
    let bytes = writer.finish().unwrap();
    let mut reader = ArchiveReader::new(1, 1);
    reader.open(bytes).unwrap();
    assert_eq!(reader.frame_count(), 3);
    let second = reader.read_frame(1).unwrap();
    assert_eq!((second.phases, second.amplitudes, second.emotions), (vec![105], vec![7], vec![3]));
    let third = reader.read_frame(2).unwrap();
    assert_eq!((third.phases, third.amplitudes, third.emotions), (vec![98], vec![8], vec![3]));
    // Beyond the last frame the state of the last frame comes back.
    let beyond = reader.read_frame(9).unwrap();
    assert_eq!(beyond.phases, vec![98]);
    assert_eq!(beyond.frame_index, 9);
}

#[test]
fn timestamps_hold_at_the_largest_value() {
    let frames = [frame(0, true, &[1], &[2], &[3]), frame(1, false, &[1], &[2], &[3])];
    let bytes = record(u64::MAX - 5, 1, 1, &frames);
    let mut reader = ArchiveReader::new(1, 1);
    reader.open(bytes).unwrap();
    assert_eq!(reader.read_frame(0).unwrap().timestamp_ms, u64::MAX - 5);
    assert_eq!(reader.read_frame(1).unwrap().timestamp_ms, u64::MAX);
    assert_eq!(reader.duration_ms(), u64::MAX);
}
