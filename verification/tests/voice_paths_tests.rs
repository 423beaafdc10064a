use deepseek_custom::paths::{resolve_kokoro_paths, resolve_whisper_model_path};

const NOWHERE: &str = "/no/such/project/root/for/voice/models";

#[test]
fn whisper_returns_none_when_nothing_found() {
    let found = resolve_whisper_model_path(None, NOWHERE, Some("/no/such/local/app/data"));
    assert!(found.is_none());
}

#[test]
fn kokoro_returns_none_when_nothing_found() {
    let found = resolve_kokoro_paths(None, None, NOWHERE, Some("/no/such/local/app/data"));
    assert!(found.is_none());
}

#[test]
fn a_configured_path_that_is_not_there_is_not_taken() {
    let found = resolve_whisper_model_path(Some("/no/such/custom.bin"), NOWHERE, None);
    assert!(found.is_none());
}
