use comic_reader::tts::{
    engine_or_default, prepare_audio_export, speech_result, TtsPoll, TtsState, TtsStatus,
};

#[test]
fn supervisor_starts_stopped() {
    let s = TtsState::default();
    assert!(!s.running);
    assert_eq!(s.status, TtsStatus::Stopped);
    assert_eq!(s.status.name(), "stopped");
    assert!(s.needs_launch());
}

#[test]
fn launched_server_is_starting_and_not_relaunched() {
    let mut s = TtsState::default();
    s.launched();
    assert!(s.running);
    assert_eq!(s.status.name(), "starting");
    assert!(!s.needs_launch());
}

#[test]
fn starting_server_is_pinged_until_healthy() {
    let mut s = TtsState::default();
    s.launched();
    assert_eq!(s.poll(false), TtsPoll::Ping);
    assert_eq!(s.health_checked(false), TtsStatus::Starting);
    assert_eq!(s.status, TtsStatus::Starting);
    assert_eq!(s.poll(false), TtsPoll::Ping);
    assert_eq!(s.health_checked(true), TtsStatus::Ready);
    assert_eq!(s.poll(false), TtsPoll::Report(TtsStatus::Ready));
    assert!(s.ready_to_speak().is_ok());
}

#[test]
fn exited_server_is_in_error() {
    let mut s = TtsState::default();
    s.launched();
    assert_eq!(s.poll(true), TtsPoll::Report(TtsStatus::Error));
    assert!(!s.running);
    assert_eq!(s.status.name(), "error");
    assert_eq!(s.ready_to_speak().err().unwrap(), "TTS server is not ready");
}

#[test]
fn stopped_server_reports_stopped() {
    let mut s = TtsState::default();
    s.launched();
    s.stop();
    assert!(!s.running);
    assert_eq!(s.poll(true), TtsPoll::Report(TtsStatus::Stopped));
}

#[test]
fn engine_defaults_to_chattts() {
    assert_eq!(engine_or_default(None), "chattts");
    assert_eq!(engine_or_default(Some("edge".to_string())), "edge");
}

#[test]
fn speech_success_becomes_data_uri() {
    let r = speech_result(true, "200 OK", None, None, Some("QUJD"), Some("mp3"));
    assert_eq!(r.unwrap(), "data:audio/mpeg;base64,QUJD");
    let r = speech_result(true, "200 OK", None, None, Some("QUJD"), None);
    assert_eq!(r.unwrap(), "data:audio/wav;base64,QUJD");
    let r = speech_result(true, "200 OK", None, None, Some("QUJD"), Some("ogg"));
    assert_eq!(r.unwrap(), "data:audio/wav;base64,QUJD");
}

#[test]
fn speech_without_audio_fails() {
    let r = speech_result(true, "200 OK", None, None, None, Some("wav"));
    assert_eq!(r.err().unwrap(), "No audio field in TTS response");
}

#[test]
fn speech_failure_carries_server_error() {
    let r = speech_result(false, "500 Internal Server Error", Some("boom"), None, None, None);
    assert_eq!(r.err().unwrap(), "TTS server error (500 Internal Server Error): boom");
    let r = speech_result(false, "500 Internal Server Error", None, Some("trace"), None, None);
    assert_eq!(
        r.err().unwrap(),
        "TTS server error (500 Internal Server Error): Unknown error\n\ntrace"
    );
    let r = speech_result(false, "404 Not Found", Some("x"), Some(""), Some("QUJD"), None);
    assert_eq!(r.err().unwrap(), "TTS server error (404 Not Found): x");
}

#[test]
fn mp3_export_is_decoded() {
    let x = prepare_audio_export("data:audio/mpeg;base64,aGk=").unwrap();
    assert_eq!(x.bytes, b"hi".to_vec());
    assert_eq!(x.extension, "mp3");
    assert_eq!(x.filter_name, "MP3 Audio");
    assert_eq!(x.file_name, "tts_audio.mp3");
}

#[test]
fn wav_and_bare_exports_are_wav() {
    let x = prepare_audio_export("data:audio/wav;base64,QUJD").unwrap();
    assert_eq!(x.bytes, b"ABC".to_vec());
    assert_eq!(x.extension, "wav");
    assert_eq!(x.filter_name, "WAV Audio");
    assert_eq!(x.file_name, "tts_audio.wav");
    let y = prepare_audio_export("QUJD").unwrap();
    assert_eq!(y.bytes, b"ABC".to_vec());
    assert_eq!(y.extension, "wav");
}

#[test]
fn malformed_export_fails() {
    let e = prepare_audio_export("data:audio/wav;base64,@@@").err().unwrap();
    assert!(e.starts_with("Failed to decode audio: "));
}
