use autorec::recorder::WavWriter;
use autorec::vu_meter::SampleFormat;
use autorec::wavfile::{find_data_chunk, read_wav_header, write_wav_header, WavError, WavHeader};

#[test]
fn header_bytes_are_canonical() {
    let h = WavHeader { sample_rate: 48000, num_channels: 2, bits_per_sample: 16, data_size: 8 };
    let bytes = write_wav_header(&h);
    let expected: Vec<u8> = vec![
        b'R', b'I', b'F', b'F', 44, 0, 0, 0, b'W', b'A', b'V', b'E', b'f', b'm', b't', b' ', 16, 0,
        0, 0, 1, 0, 2, 0, 0x80, 0xbb, 0, 0, 0x00, 0xee, 0x02, 0, 4, 0, 16, 0, b'd', b'a', b't', b'a',
        8, 0, 0, 0,
    ];
    assert_eq!(bytes, expected);
}

#[test]
fn header_round_trip() {
    for h in [
        WavHeader { sample_rate: 44100, num_channels: 1, bits_per_sample: 16, data_size: 0 },
        WavHeader { sample_rate: 96000, num_channels: 2, bits_per_sample: 32, data_size: 123456789 },
        WavHeader { sample_rate: u32::MAX, num_channels: u16::MAX, bits_per_sample: u16::MAX, data_size: u32::MAX },
    ] {
        let mut file = write_wav_header(&h);
        assert_eq!(file.len(), 44);
        file.extend_from_slice(&[1, 2, 3, 4]);
        assert_eq!(read_wav_header(&file), Ok(h));
    }
}

#[test]
fn header_errors() {
    let h = WavHeader { sample_rate: 48000, num_channels: 2, bits_per_sample: 16, data_size: 8 };
    let good = write_wav_header(&h);
    assert_eq!(read_wav_header(&good[..43].to_vec()), Err(WavError::TooShort));
    assert_eq!(read_wav_header(&Vec::new()), Err(WavError::TooShort));
    let mut bad = good.clone();
    bad[0] = b'X';
    assert_eq!(read_wav_header(&bad), Err(WavError::NotWav));
    let mut bad = good.clone();
    bad[8] = b'X';
    assert_eq!(read_wav_header(&bad), Err(WavError::NotWav));
    let mut bad = good.clone();
    bad[15] = b'X';
    assert_eq!(read_wav_header(&bad), Err(WavError::NotWav));
    let mut bad = good.clone();
    bad[36] = b'L';
    assert_eq!(read_wav_header(&bad), Err(WavError::NoDataChunk));
}

#[test]
fn other_chunks_are_skipped() {
    let h = WavHeader { sample_rate: 48000, num_channels: 2, bits_per_sample: 16, data_size: 8 };
    let mut file = write_wav_header(&h)[..36].to_vec();
    file.extend_from_slice(b"LIST");
    file.extend_from_slice(&6u32.to_le_bytes());
    file.extend_from_slice(&[9, 9, 9, 9, 9, 9]);
    file.extend_from_slice(b"data");
    file.extend_from_slice(&1000u32.to_le_bytes());
    assert_eq!(
        read_wav_header(&file),
        Ok(WavHeader { sample_rate: 48000, num_channels: 2, bits_per_sample: 16, data_size: 1000 })
    );
    assert_eq!(find_data_chunk(&file, 36), Some((58, 1000)));
    // A chunk that claims more than the file holds ends the search.
    let mut file = write_wav_header(&h)[..36].to_vec();
    file.extend_from_slice(b"LIST");
    file.extend_from_slice(&600u32.to_le_bytes());
    file.extend_from_slice(b"data");
    file.extend_from_slice(&1000u32.to_le_bytes());
    assert_eq!(read_wav_header(&file), Err(WavError::NoDataChunk));
    assert_eq!(find_data_chunk(&file, 1000), None);
}

#[test]
fn test_wav_header_generation() {
    let (mut writer, header) = WavWriter::new(48000, 2, SampleFormat::S16);
    let mut file = header;
    let samples = vec![1000i32, -1000, 2000, -2000];
    file.extend(writer.write_samples(&samples));
    let closing = writer.finalize();
    file[..44].copy_from_slice(&closing);
    assert!(file.len() > 44);
    assert_eq!(
        read_wav_header(&file),
        Ok(WavHeader { sample_rate: 48000, num_channels: 2, bits_per_sample: 16, data_size: 8 })
    );
}

#[test]
fn test_wav_writer_s16() {
    let (mut writer, header) = WavWriter::new(44100, 1, SampleFormat::S16);
    let mut file = header;
    let samples = vec![0, 1000, -1000, 16000, -16000];
    file.extend(writer.write_samples(&samples));
    assert_eq!(file.len(), 54);
    assert_eq!(&file[44..], &[0, 0, 0xe8, 0x03, 0x18, 0xfc, 0x80, 0x3e, 0x80, 0xc1]);
    assert_eq!(writer.data_size, 10);
}

#[test]
fn test_wav_writer_s32() {
    let (mut writer, header) = WavWriter::new(96000, 2, SampleFormat::S32);
    let mut file = header;
    let samples = vec![0, 100000, -100000, 1000000, -1000000];
    file.extend(writer.write_samples(&samples));
    assert_eq!(file.len(), 64);
    let mut expected: Vec<u8> = Vec::new();
    for s in &samples {
        expected.extend_from_slice(&(*s as i32).to_le_bytes());
    }
    assert_eq!(&file[44..], &expected[..]);
}

#[test]
fn sixteen_bit_samples_keep_their_low_bits() {
    let (mut writer, _) = WavWriter::new(44100, 1, SampleFormat::S16);
    let bytes = writer.write_samples(&vec![70000, -70000, i32::MIN, i32::MAX]);
    let mut expected: Vec<u8> = Vec::new();
    for s in [70000i32, -70000, i32::MIN, i32::MAX] {
        expected.extend_from_slice(&(s as i16).to_le_bytes());
    }
    assert_eq!(bytes, expected);
}

#[test]
fn recording_declares_its_data_size() {
    let (mut writer, header) = WavWriter::new(48000, 2, SampleFormat::S32);
    let mut file = header;
    for block in 0..7 {
        let samples: Vec<i32> = (0..(block * 13 + 5)).map(|k| k * 1000 - 3000).collect();
        file.extend(writer.write_samples(&samples));
    }
    let closing = writer.finalize();
    file[..44].copy_from_slice(&closing);
    let header = read_wav_header(&file).unwrap();
    assert_eq!(header.data_size as usize, file.len() - 44);
    assert_eq!(writer.data_size as usize, file.len() - 44);
    assert_eq!(u32::from_le_bytes([file[4], file[5], file[6], file[7]]) as usize, file.len() - 8);
    assert_eq!((header.sample_rate, header.num_channels, header.bits_per_sample), (48000, 2, 32));
}

#[test]
fn sample_data_is_split_into_channels() {
    let data: Vec<u8> = vec![0x01, 0x00, 0xff, 0xff, 0x00, 0x80, 0xff, 0x7f, 0x05];
    assert_eq!(
        autorec::wavfile::deinterleave(&data, 2, SampleFormat::S16),
        vec![vec![1, i16::MIN as i32], vec![-1, i16::MAX as i32]]
    );
    assert_eq!(
        autorec::wavfile::deinterleave(&data, 1, SampleFormat::S32),
        vec![vec![-65535, 0x7fff_8000]]
    );
    assert_eq!(
        autorec::wavfile::deinterleave(&data, 3, SampleFormat::S32),
        vec![Vec::<i32>::new(), Vec::new(), Vec::new()]
    );
    assert!(autorec::wavfile::deinterleave(&data, 0, SampleFormat::S16).is_empty());
    // What a writer encodes comes back.
    let (mut writer, _) = WavWriter::new(48000, 2, SampleFormat::S32);
    let samples = vec![1, -1, i32::MIN, i32::MAX, 0, 77];
    let bytes = writer.write_samples(&samples);
    assert_eq!(
        autorec::wavfile::deinterleave(&bytes, 2, SampleFormat::S32),
        vec![vec![1, i32::MIN, 0], vec![-1, i32::MAX, 77]]
    );
}

#[test]
fn segment_of_a_recording() {
    // One channel of 16 bits at 1000 Hz: two bytes per millisecond.
    let h = WavHeader { sample_rate: 1000, num_channels: 1, bits_per_sample: 16, data_size: 200 };
    let mut file = write_wav_header(&h);
    file.extend((0..200u32).map(|k| k as u8));
    let segment = autorec::wavfile::extract_wav_segment(&file, 10_000, 5_000).unwrap();
    assert_eq!(segment.len(), 44 + 10);
    assert_eq!(read_wav_header(&segment).unwrap().data_size, 10);
    assert_eq!(read_wav_header(&segment).unwrap().sample_rate, 1000);
    assert_eq!(&segment[44..], &[20, 21, 22, 23, 24, 25, 26, 27, 28, 29]);
    // Part of a frame is cut off; the end of the file ends the segment.
    let segment = autorec::wavfile::extract_wav_segment(&file, 98_999, 5_999).unwrap();
    assert_eq!(&segment[44..], &[196, 197, 198, 199]);
    let segment = autorec::wavfile::extract_wav_segment(&file, 100_000, 5_000).unwrap();
    assert_eq!(segment.len(), 44);
    assert_eq!(read_wav_header(&segment).unwrap().data_size, 0);
    let segment = autorec::wavfile::extract_wav_segment(&file, u64::MAX, u64::MAX).unwrap();
    assert_eq!(segment.len(), 44);
    assert_eq!(autorec::wavfile::extract_wav_segment(&file, 0, 1_000).unwrap()[44..], [0, 1]);
    assert_eq!(
        autorec::wavfile::extract_wav_segment(&file[..40].to_vec(), 0, 1),
        Err(WavError::TooShort)
    );
}
