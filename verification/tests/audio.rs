use martin::audio::capture::parse_sink_serial;
use martin::audio::mix::mix_samples;

#[test]
fn mix_samples_of_equal_length() {
    assert_eq!(mix_samples(&[1000, 2000, 3000], &[500, 1000, 1500]), vec![1500, 3000, 4500]);
}

#[test]
fn mix_samples_pads_the_shorter_track() {
    assert_eq!(mix_samples(&[1000, 2000, 3000, 4000], &[500, 500]), vec![1500, 2500, 3000, 4000]);
    assert_eq!(mix_samples(&[500, 500], &[1000, 2000, 3000, 4000]), vec![1500, 2500, 3000, 4000]);
}

#[test]
fn mix_samples_clamps_on_overflow() {
    let result = mix_samples(&[30000, -30000], &[30000, -30000]);
    assert_eq!(result[0], i16::MAX);
    assert_eq!(result[1], i16::MIN);
}

#[test]
fn mix_samples_of_nothing_is_nothing() {
    assert_eq!(mix_samples(&[], &[]), Vec::<i16>::new());
    assert_eq!(mix_samples(&[7, -7], &[]), vec![7, -7]);
}

#[test]
fn sink_serial_is_the_quoted_value() {
    let out = "id 57, type PipeWire:Interface:Node\n    alsa.card = \"0\"\n  * object.serial = \"63\"\n    node.name = \"x\"\n";
    assert_eq!(parse_sink_serial(out), Some("63".to_string()));
}

#[test]
fn sink_serial_missing_or_unquoted() {
    assert_eq!(parse_sink_serial("node.name = \"x\"\n"), None);
    assert_eq!(parse_sink_serial("object.serial = 63\nobject.serial = \"64\""), None);
    assert_eq!(parse_sink_serial(""), None);
}

#[test]
fn sink_serial_without_closing_quote_runs_to_end_of_line() {
    assert_eq!(parse_sink_serial("object.serial = \"63\r\nnext"), Some("63".to_string()));
    assert_eq!(parse_sink_serial("object.serial = \"63"), Some("63".to_string()));
}

#[test]
fn recording_names_share_the_timestamp() {
    let names = martin::audio::capture::recording_names(1700000000123);
    assert_eq!(names.output, "recording_1700000000123.wav");
    assert_eq!(names.mic, "recording_1700000000123.mic.wav");
    assert_eq!(names.system, "recording_1700000000123.sys.wav");
    let p = std::path::PathBuf::from(&names.output);
    assert_eq!(p.with_extension("mic.wav").to_str(), Some(names.mic.as_str()));
    assert_eq!(p.with_extension("sys.wav").to_str(), Some(names.system.as_str()));
}
