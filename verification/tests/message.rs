use nshedit::domain::Error;
use nshedit::editor::effect::{EffectStateError, HostFailure};

#[test]
fn domain_errors_say_what_went_wrong_with_their_values() {
    assert_eq!(
        Error::ScalarWideValue(0x41).message(),
        "U+0041 is a Unicode scalar value"
    );
    assert_eq!(
        Error::ScalarWideValue(0x1F600).message(),
        "U+1F600 is a Unicode scalar value"
    );
    assert_eq!(
        Error::TextIndexOutOfBounds { index: 3, len: 2 }.message(),
        "text index 3 exceeds length 2"
    );
    assert_eq!(
        Error::InvalidTextSpan {
            start: 4,
            end: 1,
            len: 10
        }
        .message(),
        "text span 4..1 is invalid for length 10"
    );
    assert_eq!(
        Error::InvalidScreenSize {
            rows: 0,
            columns: 80
        }
        .message(),
        "screen size 0x80 has an empty dimension"
    );
    assert_eq!(
        Error::ScreenPositionOutOfBounds {
            row: 1,
            column: 2,
            rows: 3,
            columns: 4
        }
        .message(),
        "screen position (1, 2) is outside 3x4"
    );
    assert_eq!(
        Error::EmptyCommandName.message(),
        "a command name cannot be empty"
    );
}

#[test]
fn host_and_protocol_failures_have_messages() {
    assert_eq!(
        HostFailure::Failed("disk full".to_string()).message(),
        "host operation failed: disk full"
    );
    assert_eq!(
        HostFailure::Interrupted.message(),
        "host operation was interrupted"
    );
    assert_eq!(
        EffectStateError::StaleSuspension.message(),
        "the suspension is no longer current"
    );
}
