use audio_slicer::formats::{is_audio_extension, is_supported_lowercase};

#[test]
fn lowercase_extensions_are_recognised() {
    for ext in ["wav", "mp3", "flac", "m4a", "aac", "ogg"] {
        assert!(is_supported_lowercase(&ext.to_string()));
    }
    assert!(!is_supported_lowercase(&"WAV".to_string()));
    assert!(!is_supported_lowercase(&"wave".to_string()));
    assert!(!is_supported_lowercase(&String::new()));
}

#[test]
fn extension_case_is_ignored() {
    assert!(is_audio_extension("WAV"));
    assert!(is_audio_extension("Flac"));
    assert!(is_audio_extension("ogg"));
    assert!(!is_audio_extension("txt"));
    assert!(!is_audio_extension("MP4"));
    assert!(!is_audio_extension(""));
}
