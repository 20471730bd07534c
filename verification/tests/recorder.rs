use alan_core::frame::BAND_MICRO;
use alan_core::reader::ArchiveReader;
use alan_core::recorder::{PsiRecorder, RecorderConfig, RecorderError, RecorderStats};
use alan_core::writer::WriterError;

fn config(capacity: usize) -> RecorderConfig {
    RecorderConfig {
        oscillator_count: 2,
        emotion_dimensions: 1,
        queue_capacity: capacity,
        keyframe_interval: 300,
        compression_level: 22,
        flush_interval: 300,
        meso_decimation: 0,
        macro_event_only: true,
    }
}

#[test]
fn backpressure_under_burst() {
    let mut recorder = PsiRecorder::new(config(8));
    recorder.start_recording(1_000).unwrap();
    let mut accepted = Vec::new();
    for i in 0..100i16 {
        if recorder.capture_frame(i as u64, &[i, -i], &[i, 2 * i], &[3 * i]) {
            accepted.push(i);
        }
    }
    // Exactly as many frames as the queue holds are accepted.
    assert_eq!(accepted, vec![0, 1, 2, 3, 4, 5, 6, 7]);
    let stats = recorder.stats();
    assert_eq!(stats.frames_captured, 8);
    assert_eq!(stats.frames_dropped, 92);
    assert_eq!(stats.keyframes, 1);
    assert_eq!(recorder.queue_len(), 8);

    // The writer resumes: every accepted frame is persisted.
    let mut bytes = recorder.take_pending();
    while recorder.queue_len() > 0 {
        let outcome = recorder.process_batch();
        assert!(outcome.processed > 0);
        bytes.extend_from_slice(&recorder.take_pending());
    }
    assert_eq!(recorder.stats().frames_processed, 8);
    bytes.extend_from_slice(&recorder.finish().unwrap());

    let mut reader = ArchiveReader::new(2, 1);
    reader.open(bytes).unwrap();
    assert_eq!(reader.frame_count(), 8);
    for i in 0..8i16 {
        let frame = reader.read_frame(i as u64).unwrap();
        assert_eq!(frame.phases, vec![i, -i]);
        assert_eq!(frame.amplitudes, vec![i, 2 * i]);
        assert_eq!(frame.emotions, vec![3 * i]);
        assert_eq!(frame.band, BAND_MICRO);
    }

    // The buffers are back in the pool: the next burst is accepted again.
    recorder.start_recording(2_000).unwrap();
    for i in 0..8i16 {
        assert!(recorder.capture_frame(0, &[i], &[i], &[i]));
    }
    assert!(!recorder.capture_frame(0, &[0], &[0], &[0]));
}

#[test]
fn dropped_frames_leave_gaps_in_the_indices() {
    let mut recorder = PsiRecorder::new(config(2));
    recorder.start_recording(0).unwrap();
    assert!(recorder.capture_frame(0, &[10, 0], &[0, 0], &[0]));
    assert!(recorder.capture_frame(0, &[11, 0], &[0, 0], &[0]));
    assert!(!recorder.capture_frame(0, &[12, 0], &[0, 0], &[0]));
    assert!(!recorder.capture_frame(0, &[13, 0], &[0, 0], &[0]));
    let outcome = recorder.process_batch();
    assert_eq!(outcome.processed, 2);
    assert!(!outcome.flush_due);
    assert!(recorder.capture_frame(0, &[14, 0], &[0, 0], &[0]));
    recorder.stop_recording();
    assert!(!recorder.capture_frame(0, &[15, 0], &[0, 0], &[0]));
    assert!(recorder.has_work());
    let mut bytes = recorder.take_pending();
    bytes.extend_from_slice(&recorder.finish().unwrap());
    assert!(!recorder.has_work());
    let mut reader = ArchiveReader::new(2, 1);
    reader.open(bytes).unwrap();
    // Captured were the frames with capture indices 0, 1 and 4.
    assert_eq!(reader.frame_count(), 3);
    assert_eq!(reader.read_frame(2).unwrap().phases, vec![14, 0]);
    assert_eq!(recorder.stats().frames_dropped, 2);
    assert_eq!(recorder.stats().frames_captured, 3);
}

#[test]
fn capture_fits_frames_to_the_configured_sizes() {
    let mut recorder = PsiRecorder::new(config(4));
    recorder.start_recording(0).unwrap();
    // Too few phases are padded with zeros, too many are cut; levels below zero become zero.
    assert!(recorder.capture_frame(0, &[5], &[-7, 32767, 9], &[]));
    let mut bytes = recorder.take_pending();
    bytes.extend_from_slice(&recorder.finish().unwrap());
    let mut reader = ArchiveReader::new(2, 1);
    reader.open(bytes).unwrap();
    let frame = reader.read_frame(0).unwrap();
    assert_eq!(frame.phases, vec![5, 0]);
    assert_eq!(frame.amplitudes, vec![0, 32767]);
    assert_eq!(frame.emotions, vec![0]);
}

#[test]
fn recorder_life_cycle() {
    let mut recorder = PsiRecorder::new(RecorderConfig::default());
    assert!(RecorderConfig::default().is_valid());
    assert!(!recorder.is_recording());
    assert!(!recorder.capture_frame(0, &[1], &[1], &[1]));
    assert_eq!(recorder.stats(), RecorderStats::default());
    assert_eq!(recorder.finish().err(), Some(WriterError::NotStarted));
    assert_eq!(recorder.start_recording(5), Ok(()));
    assert!(recorder.is_recording());
    assert_eq!(recorder.start_recording(6), Err(RecorderError::AlreadyRecording));
    recorder.record_capture_time(40);
    recorder.record_capture_time(20);
    recorder.record_processing_time(7);
    assert_eq!(recorder.stats().max_capture_time_us, 40);
    assert_eq!(recorder.stats().max_processing_time_us, 7);
    let bytes = recorder.finish().unwrap();
    // Header and end marker.
    assert_eq!(bytes.len(), 21);
    assert!(!recorder.is_recording());
}

#[test]
fn invalid_configurations_are_recognised() {
    let mut c = config(0);
    assert!(!c.is_valid());
    c.queue_capacity = 1_048_577;
    assert!(!c.is_valid());
    c.queue_capacity = 1;
    assert!(c.is_valid());
    c.keyframe_interval = 0;
    assert!(!c.is_valid());
    c.keyframe_interval = 1;
    c.oscillator_count = usize::MAX / 2;
    assert!(!c.is_valid());
}

#[test]
fn flush_is_due_once_per_interval_of_written_frames() {
    let mut c = config(16);
    c.flush_interval = 4;
    let mut recorder = PsiRecorder::new(c);
    recorder.start_recording(0).unwrap();
    for i in 0..3i16 {
        assert!(recorder.capture_frame(0, &[i], &[0], &[0]));
    }
    assert!(!recorder.process_batch().flush_due);
    for i in 0..2i16 {
        assert!(recorder.capture_frame(0, &[i], &[0], &[0]));
    }
    let outcome = recorder.process_batch();
    assert_eq!(outcome.processed, 2);
    assert!(outcome.flush_due);
    for i in 0..12i16 {
        assert!(recorder.capture_frame(0, &[i], &[0], &[0]));
    }
    // A batch takes ten frames at most.
    assert_eq!(recorder.process_batch().processed, 10);
    assert_eq!(recorder.queue_len(), 2);
}
