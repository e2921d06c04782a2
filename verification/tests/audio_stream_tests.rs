use autorec::audio_stream::{
    create_input_stream, discover_all_sources, discover_pipewire_sources, discover_pwpipe_sources,
    parse_audio_address, AudioInputStream, AudioStream, Backend, MemoryInputStream,
};
use autorec::pipewire_utils::Source;
use autorec::vu_meter::SampleFormat;

#[test]
fn test_parse_audio_address_pipewire() {
    let (backend, device) = parse_audio_address("pipewire:input1").unwrap();
    assert_eq!(backend, "pipewire");
    assert_eq!(device, "input1");

    let (backend, device) = parse_audio_address("pw:test.monitor").unwrap();
    assert_eq!(backend, "pipewire");
    assert_eq!(device, "test.monitor");
}

#[test]
fn test_parse_audio_address_alsa() {
    let (backend, device) = parse_audio_address("alsa:hw:0,0").unwrap();
    assert_eq!(backend, "alsa");
    assert_eq!(device, "hw:0,0");

    let (backend, device) = parse_audio_address("alsa:default").unwrap();
    assert_eq!(backend, "alsa");
    assert_eq!(device, "default");
}

#[test]
fn test_parse_audio_address_auto_detect() {
    let (backend, device) = parse_audio_address("hw:0,0").unwrap();
    assert_eq!(backend, "alsa");
    assert_eq!(device, "hw:0,0");

    let (backend, device) = parse_audio_address("plughw:1,0").unwrap();
    assert_eq!(backend, "alsa");
    assert_eq!(device, "plughw:1,0");

    let (backend, device) = parse_audio_address("default").unwrap();
    assert_eq!(backend, "alsa");
    assert_eq!(device, "default");

    let (backend, device) = parse_audio_address("input.monitor").unwrap();
    assert_eq!(backend, "pipewire");
    assert_eq!(device, "input.monitor");
}

#[test]
fn test_parse_audio_address_invalid() {
    let (backend, device) = parse_audio_address("unknown:device").unwrap();
    assert_eq!(backend, "pipewire");
    assert_eq!(device, "unknown:device");
}

#[test]
fn test_parse_audio_address_file() {
    let (backend, device) = parse_audio_address("/path/to/audio.wav").unwrap();
    assert_eq!(backend, "file");
    assert_eq!(device, "/path/to/audio.wav");

    let (backend, device) = parse_audio_address("./test.mp3").unwrap();
    assert_eq!(backend, "file");
    assert_eq!(device, "./test.mp3");

    let (backend, device) = parse_audio_address("file:/tmp/music.flac").unwrap();
    assert_eq!(backend, "file");
    assert_eq!(device, "/tmp/music.flac");

    let (backend, device) = parse_audio_address("audio.WAV").unwrap();
    assert_eq!(backend, "file");
    assert_eq!(device, "audio.WAV");
}

#[test]
fn test_create_input_stream() {
    let stream = create_input_stream("pipewire:test", 48000, 2, SampleFormat::S32).unwrap();
    assert_eq!(stream.sample_rate(), 48000);
    assert_eq!(stream.channels(), 2);

    let stream = create_input_stream("alsa:hw:0,0", 44100, 2, SampleFormat::S16).unwrap();
    assert_eq!(stream.sample_rate(), 44100);
    assert_eq!(stream.channels(), 2);

    let stream = create_input_stream("hw:0,0", 48000, 2, SampleFormat::S32).unwrap();
    assert_eq!(stream.sample_rate(), 48000);
}

#[test]
fn address_scheme_and_extension_ignore_case() {
    let (backend, device) = parse_audio_address("PipeWire:in").unwrap();
    assert_eq!((backend.as_str(), device.as_str()), ("pipewire", "in"));
    let (backend, device) = parse_audio_address("ALSA:hw:1,0").unwrap();
    assert_eq!((backend.as_str(), device.as_str()), ("alsa", "hw:1,0"));
    let (backend, device) = parse_audio_address("pwpipe:mic").unwrap();
    assert_eq!((backend.as_str(), device.as_str()), ("pwpipe", "mic"));
    let (backend, device) = parse_audio_address("side_a.Flac").unwrap();
    assert_eq!((backend.as_str(), device.as_str()), ("file", "side_a.Flac"));
    let (backend, _) = parse_audio_address("side_a.Mp3").unwrap();
    assert_eq!(backend, "file");
    let (backend, _) = parse_audio_address("side_a.ogg").unwrap();
    assert_eq!(backend, "pipewire");
}

#[test]
fn stream_request_names_backend_and_device() {
    let request = create_input_stream("file:/tmp/a.wav", 44100, 1, SampleFormat::S16).unwrap();
    assert_eq!(request.backend, Backend::File);
    assert_eq!(request.device, "/tmp/a.wav");
    assert_eq!(request.bytes_per_sample(), 2);
    assert_eq!(request.bytes_per_frame(), 2);
    let request = create_input_stream("pwpipe:mic", 96000, 2, SampleFormat::S32).unwrap();
    assert_eq!(request.backend, Backend::PwPipe);
    assert_eq!(request.bytes_per_frame(), 8);
    let request = create_input_stream("mic", 96000, 2, SampleFormat::S32).unwrap();
    assert_eq!(request.backend, Backend::PipeWire);
    let request = create_input_stream("default", 96000, 2, SampleFormat::S32).unwrap();
    assert_eq!(request.backend, Backend::Alsa);
}

#[test]
fn memory_stream_reads_until_the_end() {
    let mut stream =
        MemoryInputStream::new(48000, SampleFormat::S16, vec![vec![1, 2, 3, 4, 5], vec![6, 7, 8, 9, 10]]);
    assert!(!stream.is_active());
    assert_eq!(stream.read_chunk(2), None);
    assert!(stream.start().is_ok());
    assert!(stream.start().is_err());
    assert!(stream.is_active());
    assert_eq!(stream.read_chunk(2), Some(vec![vec![1, 2], vec![6, 7]]));
    assert_eq!(stream.read_chunk(2), Some(vec![vec![3, 4], vec![8, 9]]));
    assert_eq!(stream.read_chunk(2), Some(vec![vec![5], vec![10]]));
    assert_eq!(stream.read_chunk(2), None);
    stream.stop();
    stream.stop();
    assert!(!stream.is_active());
    assert_eq!(stream.channels(), 2);
    assert_eq!(stream.sample_rate(), 48000);
}

#[test]
fn memory_stream_stopped_returns_nothing() {
    let mut stream = MemoryInputStream::new(44100, SampleFormat::S32, vec![vec![1, 2, 3]]);
    stream.start().unwrap();
    assert_eq!(stream.read_chunk(1), Some(vec![vec![1]]));
    stream.stop();
    assert_eq!(stream.read_chunk(1), None);
    stream.start().unwrap();
    assert_eq!(stream.read_chunk(5), Some(vec![vec![2, 3]]));
}

#[test]
fn discovered_sources_carry_backend_and_address() {
    let targets = vec![
        Source { name: "alsa_input.usb".to_string(), description: Some("USB".to_string()) },
        Source { name: "monitor".to_string(), description: None },
    ];
    let pw = discover_pipewire_sources(&targets);
    assert_eq!(pw.len(), 2);
    assert_eq!(pw[0].backend, "pipewire");
    assert_eq!(pw[0].url, "pipewire:alsa_input.usb");
    assert_eq!(pw[0].description, Some("USB".to_string()));
    assert_eq!(pw[1].url, "pipewire:monitor");
    assert_eq!(pw[1].description, None);
    let pipe = discover_pwpipe_sources(&targets);
    assert_eq!(pipe[1].backend, "pwpipe");
    assert_eq!(pipe[1].url, "pwpipe:monitor");
    let all = discover_all_sources(pw, pipe, Vec::new());
    assert_eq!(all.len(), 4);
    assert_eq!(all[0].url, "pipewire:alsa_input.usb");
    assert_eq!(all[3].url, "pwpipe:monitor");
}

#[test]
fn samples_are_widened_to_full_scale() {
    assert_eq!(autorec::audio_stream::widen_u8(0), i32::MIN);
    assert_eq!(autorec::audio_stream::widen_u8(128), 0);
    assert_eq!(autorec::audio_stream::widen_u8(255), 127 << 24);
    assert_eq!(autorec::audio_stream::widen_u16(0), i32::MIN);
    assert_eq!(autorec::audio_stream::widen_u16(32769), 1 << 16);
    assert_eq!(autorec::audio_stream::widen_u32(0), i32::MIN);
    assert_eq!(autorec::audio_stream::widen_u32(u32::MAX), i32::MAX);
    assert_eq!(autorec::audio_stream::widen_s8(-128), i32::MIN);
    assert_eq!(autorec::audio_stream::widen_s8(1), 1 << 24);
    assert_eq!(autorec::audio_stream::widen_s16(-1), -65536);
    assert_eq!(autorec::audio_stream::widen_s24(-0x80_0000), i32::MIN);
    assert_eq!(autorec::audio_stream::widen_s24(0x7f_ffff), 0x7fff_ff00);
    assert_eq!(autorec::audio_stream::widen_u24(1), 256);
    assert_eq!(autorec::audio_stream::widen_u24(0xff_ffff), ((0xff_ffffu32 as i32) << 8));
    assert_eq!(autorec::audio_stream::widen_u24(0x80_0000), i32::MIN);
}

#[test]
fn channels_are_fitted() {
    let two = vec![vec![1, 2], vec![3, 4]];
    assert_eq!(autorec::audio_stream::fit_channels(two.clone(), 2), two);
    assert_eq!(autorec::audio_stream::fit_channels(two.clone(), 1), vec![vec![1, 2]]);
    assert_eq!(
        autorec::audio_stream::fit_channels(two.clone(), 4),
        vec![vec![1, 2], vec![3, 4], vec![3, 4], vec![3, 4]]
    );
    assert!(autorec::audio_stream::fit_channels(two, 0).is_empty());
    assert!(autorec::audio_stream::fit_channels(Vec::new(), 3).is_empty());
}

#[test]
fn test_stream_properties() {
    let stream = create_input_stream("pipewire:test", 96000, 4, SampleFormat::S16)
        .expect("Failed to create the stream request");

    assert_eq!(stream.sample_rate(), 96000);
    assert_eq!(stream.channels(), 4);
    assert_eq!(stream.bytes_per_sample(), 2);
    assert_eq!(stream.bytes_per_frame(), 8); // 4 channels * 2 bytes
}

#[test]
fn test_sample_format_consistency() {
    let stream_s16 = create_input_stream("pipewire:test", 44100, 2, SampleFormat::S16)
        .expect("Failed to create the stream request");
    assert!(matches!(stream_s16.sample_format(), SampleFormat::S16));

    let stream_s32 = create_input_stream("pipewire:test", 44100, 2, SampleFormat::S32)
        .expect("Failed to create the stream request");
    assert!(matches!(stream_s32.sample_format(), SampleFormat::S32));
}
