use martin::model::{model_path, progress_to_emit};

#[test]
fn model_path_returns_expected_path() {
    let path = model_path("/some/data/dir");
    assert_eq!(path, "/some/data/dir/models/ggml-small.bin");
}

#[test]
fn model_path_adds_no_second_separator() {
    assert_eq!(model_path("/data/"), "/data/models/ggml-small.bin");
    assert_eq!(model_path(""), "models/ggml-small.bin");
}

#[test]
fn progress_is_emitted_only_when_the_percentage_changes() {
    assert_eq!(progress_to_emit(255, 0, 1000), Some(0));
    assert_eq!(progress_to_emit(0, 9, 1000), None);
    assert_eq!(progress_to_emit(0, 10, 1000), Some(1));
    assert_eq!(progress_to_emit(99, 1000, 1000), Some(100));
}

#[test]
fn progress_is_not_emitted_without_a_total() {
    assert_eq!(progress_to_emit(255, 5000, 0), None);
}

#[test]
fn progress_percentage_is_truncated_to_a_byte() {
    // 300% of the announced size wraps as the u8 cast does.
    assert_eq!(progress_to_emit(0, 3000, 1000), Some(44));
}
