use autorec::recorder::{
    first_free, get_next_filename, interleave, AudioRecorder, RecorderAction,
};
use autorec::vu_meter::{SampleFormat, VUMeter};

#[test]
fn test_get_next_filename() {
    assert_eq!(get_next_filename("test", 1), "test.1.wav");
    assert_eq!(get_next_filename("test.wav", 5), "test.5.wav");
    assert_eq!(get_next_filename("path/to/recording", 10), "path/to/recording.10.wav");
}

#[test]
fn repeated_extension_is_stripped() {
    assert_eq!(get_next_filename("a.wav.wav", 2), "a.2.wav");
    assert_eq!(get_next_filename(".wav", 3), ".3.wav");
    assert_eq!(get_next_filename("a.WAV", 3), "a.WAV.3.wav");
    assert_eq!(get_next_filename("", 0), ".0.wav");
}

#[test]
fn test_audio_recorder_creation() {
    let recorder = AudioRecorder::new(
        "/tmp/test_recording".to_string(),
        48000,
        2,
        SampleFormat::S32,
        1_000_000,
        &Vec::new(),
    );
    assert!(!recorder.is_recording());
    assert_eq!(recorder.next_file_number, 1);
}

#[test]
fn test_recorder_state() {
    let mut recorder =
        AudioRecorder::new("rec".to_string(), 48000, 2, SampleFormat::S32, 1_000_000, &Vec::new());
    assert!(!recorder.is_recording());
    let audio_data = vec![vec![1000; 100], vec![1000; 100]];
    let actions = recorder.write_audio(&audio_data, true, 0);
    assert!(recorder.is_recording());
    assert_eq!(actions.len(), 2);
    assert!(matches!(&actions[0], RecorderAction::Open(name) if name == "rec.1.wav"));
    assert!(matches!(&actions[1], RecorderAction::Write(samples) if samples.len() == 200));
    let actions = recorder.write_audio(&audio_data, false, 100_000);
    assert!(!recorder.is_recording());
    assert_eq!(actions.len(), 1);
    assert!(
        matches!(&actions[0], RecorderAction::Close { file, keep } if file == "rec.1.wav" && !*keep)
    );
    assert!(recorder.close(200_000).is_none());
}

#[test]
fn test_file_numbering() {
    let existing = vec!["base.1.wav".to_string(), "base.2.wav".to_string()];
    let recorder =
        AudioRecorder::new("base".to_string(), 48000, 2, SampleFormat::S32, 1_000_000, &existing);
    assert_eq!(recorder.next_file_number, 3);
    let existing = vec!["base.2.wav".to_string(), "base.3.wav".to_string()];
    let recorder =
        AudioRecorder::new("base.wav".to_string(), 48000, 2, SampleFormat::S32, 1_000_000, &existing);
    assert_eq!(recorder.next_file_number, 1);
    let existing = vec!["base.3.wav".to_string(), "base.1.wav".to_string(), "other".to_string()];
    let recorder =
        AudioRecorder::new("base".to_string(), 48000, 2, SampleFormat::S32, 1_000_000, &existing);
    assert_eq!(recorder.next_file_number, 2);
}

#[test]
fn interleaving_pads_missing_channels() {
    assert_eq!(interleave(&vec![vec![1, 2, 3], vec![4, 5, 6]], 2), vec![1, 4, 2, 5, 3, 6]);
    assert_eq!(interleave(&vec![vec![1, 2, 3], vec![4]], 2), vec![1, 4, 2, 0, 3, 0]);
    assert_eq!(interleave(&vec![vec![1, 2]], 3), vec![1, 0, 0, 2, 0, 0]);
    assert_eq!(interleave(&vec![vec![1, 2], vec![3, 4]], 1), vec![1, 2]);
    assert_eq!(interleave(&vec![vec![], vec![3, 4]], 2), Vec::<i32>::new());
    assert_eq!(interleave(&vec![vec![1, 2]], 0), Vec::<i32>::new());
}

/// Runs a source of one channel through meter and recorder, one update of
/// one second at a time: `on` tells for every second whether the signal is
/// present. Returns the names of the files kept and of the files deleted,
/// with the seconds written to each.
fn run(on: &[bool], silence_s: u64, min_length_s: u64) -> (Vec<(String, usize)>, Vec<(String, usize)>, AudioRecorder) {
    let mut meter = VUMeter::new(48000, 1, SampleFormat::S16, 1_000_000, 9000, 0, -6000, silence_s * 1_000_000);
    let mut recorder = AudioRecorder::new(
        "rec".to_string(),
        48000,
        1,
        SampleFormat::S16,
        min_length_s * 1_000_000,
        &Vec::new(),
    );
    let mut kept = Vec::new();
    let mut deleted = Vec::new();
    let mut written = 0usize;
    for (t, &present) in on.iter().enumerate() {
        let level = if present { -2000 } else { -8000 };
        meter.update_history(0, level, level, false);
        let block = vec![vec![if present { 1000 } else { 0 }; 4]];
        for action in recorder.write_audio(&block, meter.is_any_channel_on(), t as u64 * 1_000_000) {
            match action {
                RecorderAction::Open(_) => written = 0,
                RecorderAction::Write(_) => written += 1,
                RecorderAction::Close { file, keep } => {
                    if keep {
                        kept.push((file, written));
                    } else {
                        deleted.push((file, written));
                    }
                },
            }
        }
    }
    (kept, deleted, recorder)
}

#[test]
fn short_recording_is_deleted_and_number_stays() {
    let mut on = vec![true; 5];
    on.extend(vec![false; 15]);
    let (kept, deleted, recorder) = run(&on, 2, 10);
    assert!(kept.is_empty());
    assert_eq!(deleted, vec![("rec.1.wav".to_string(), 6)]);
    assert_eq!(recorder.next_file_number, 1);
    assert!(!recorder.is_recording());
}

#[test]
fn two_recordings_in_sequence() {
    let mut on = vec![true; 30];
    on.extend(vec![false; 15]);
    on.extend(vec![true; 30]);
    on.extend(vec![false; 15]);
    let (kept, deleted, recorder) = run(&on, 10, 10);
    assert!(deleted.is_empty());
    // Every file holds its 30 seconds of signal and the silence that the
    // window needs to fill.
    assert_eq!(kept, vec![("rec.1.wav".to_string(), 39), ("rec.2.wav".to_string(), 39)]);
    assert_eq!(recorder.next_file_number, 3);
}

#[test]
fn silence_alone_produces_no_file() {
    let (kept, deleted, recorder) = run(&vec![false; 60], 10, 10);
    assert!(kept.is_empty() && deleted.is_empty());
    assert_eq!(recorder.next_file_number, 1);
    let mut recorder =
        AudioRecorder::new("rec".to_string(), 48000, 1, SampleFormat::S16, 0, &Vec::new());
    assert!(recorder.write_audio(&Vec::new(), false, 0).is_empty());
}

#[test]
fn recording_of_exactly_the_minimum_length_is_kept() {
    let mut recorder =
        AudioRecorder::new("rec".to_string(), 48000, 1, SampleFormat::S16, 10_000_000, &Vec::new());
    recorder.write_audio(&vec![vec![1]], true, 5_000_000);
    let actions = recorder.write_audio(&vec![vec![1]], false, 15_000_000);
    assert!(matches!(&actions[0], RecorderAction::Close { keep: true, .. }));
    assert_eq!(recorder.next_file_number, 2);
    recorder.write_audio(&vec![vec![1]], true, 20_000_000);
    let action = recorder.close(29_999_999).unwrap();
    assert!(
        matches!(&action, RecorderAction::Close { file, keep: false } if file == "rec.2.wav")
    );
    assert_eq!(recorder.next_file_number, 2);
}

#[test]
fn numbers_of_files_that_were_there_are_passed_over() {
    let existing = vec!["rec.2.wav".to_string(), "rec.3.wav".to_string(), "rec.5.wav".to_string()];
    let mut recorder =
        AudioRecorder::new("rec".to_string(), 48000, 1, SampleFormat::S16, 1_000_000, &existing);
    assert_eq!(recorder.next_file_number, 1);
    assert_eq!(recorder.existing, existing);
    let opened = |recorder: &mut AudioRecorder, now: u64| -> String {
        let actions = recorder.write_audio(&vec![vec![1]], true, now);
        match &actions[0] {
            RecorderAction::Open(file) => file.clone(),
            other => panic!("no file opened: {:?}", other),
        }
    };
    // The first recording is kept: the next number is the first that is free.
    assert_eq!(opened(&mut recorder, 0), "rec.1.wav");
    recorder.write_audio(&vec![vec![1]], false, 2_000_000);
    assert_eq!(recorder.next_file_number, 4);
    // A recording that is deleted leaves the number as it is.
    assert_eq!(opened(&mut recorder, 3_000_000), "rec.4.wav");
    recorder.write_audio(&vec![vec![1]], false, 3_500_000);
    assert_eq!(recorder.next_file_number, 4);
    assert_eq!(opened(&mut recorder, 4_000_000), "rec.4.wav");
    assert!(matches!(recorder.close(9_000_000), Some(RecorderAction::Close { keep: true, .. })));
    assert_eq!(recorder.next_file_number, 6);
    assert_eq!(first_free("rec", &existing, 2), Some(4));
    assert_eq!(first_free("rec.wav", &existing, 5), Some(6));
    assert_eq!(first_free("rec", &Vec::new(), 7), Some(7));
    assert_eq!(first_free("rec", &vec![format!("rec.{}.wav", usize::MAX)], usize::MAX), None);
}
