use imstr::error::SliceError;

#[test]
fn slice_error_messages() {
    assert_eq!(SliceError::StartOutOfBounds.message(), "start offset out of bounds");
    assert_eq!(SliceError::EndOutOfBounds.message(), "end offset out of bounds");
    assert_eq!(SliceError::EndBeforeStart.message(), "end offset before start offset");
    assert_eq!(SliceError::StartNotAligned.message(), "start offset in multibyte UTF-8 sequence");
    assert_eq!(SliceError::EndNotAligned.message(), "end offset in multibyte UTF-8 sequence");
}

#[test]
fn slice_errors_compare_by_kind() {
    let errors = [
        SliceError::StartOutOfBounds,
        SliceError::EndOutOfBounds,
        SliceError::EndBeforeStart,
        SliceError::StartNotAligned,
        SliceError::EndNotAligned,
    ];
    for (i, left) in errors.iter().enumerate() {
        for (j, right) in errors.iter().enumerate() {
            assert_eq!(left == right, i == j);
            assert_eq!(left.message() == right.message(), i == j);
        }
    }
}
