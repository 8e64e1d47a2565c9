use voxa::error::{ErrorCategory, ErrorCodeError, ErrorContext, MuxivaError};
use voxa::frame_buffer::FrameBuffer;

#[test]
fn error_preserves_category_code_and_context() {
    let node = "mock-asr".to_owned();
    let error = MuxivaError::new(ErrorCategory::Configuration, "MUXIVA-CFG-001", "missing model")
        .with_node(node.clone())
        .with_phase("prepare")
        .with_context("config_key", "model");

    assert_eq!(error.category(), ErrorCategory::Configuration);
    assert_eq!(error.code(), "MUXIVA-CFG-001");
    assert_eq!(error.message(), "missing model");
    assert!(error.to_display_string().contains("MUXIVA-CFG-001"));
    assert_eq!(error.contexts().len(), 3);
    assert_eq!(error.contexts()[0], ErrorContext::Node(node));
}

#[test]
fn error_rejects_invalid_stable_code() {
    assert!(MuxivaError::try_new(ErrorCategory::Internal, "temporary code", "failure").is_err());
}

#[test]
fn error_code_error_is_reachable_from_the_crate_root() {
    let result: std::result::Result<MuxivaError, ErrorCodeError> =
        MuxivaError::try_new(ErrorCategory::Internal, "temporary code", "failure");

    assert_eq!(result.unwrap_err(), ErrorCodeError);
}

#[test]
fn error_display_omits_sensitive_context_values() {
    let error = MuxivaError::new(ErrorCategory::Configuration, "MUXIVA-CFG-001", "missing model")
        .with_context("api_token", "secret-value");

    assert!(!error.to_display_string().contains("secret-value"));
}

#[test]
fn error_exposes_its_source() {
    let error = MuxivaError::new(ErrorCategory::External, "MUXIVA-EXT-001", "dependency failed")
        .with_source("connection reset".to_owned());

    assert!(error.source().is_some());
}

#[test]
fn error_display_is_code_then_message() {
    let error = MuxivaError::new(ErrorCategory::Validation, "MUXIVA-X", "bad input");
    assert_eq!(error.to_display_string(), "[MUXIVA-X] bad input");
    assert!(MuxivaError::try_new(ErrorCategory::Validation, "MUXIVA-", "bare prefix").is_ok());
    assert!(MuxivaError::try_new(ErrorCategory::Validation, "muxiva-x", "lowercase").is_err());
    assert!(MuxivaError::try_new(ErrorCategory::Validation, "MUXIVA-A_1", "underscore").is_err());
    assert!(MuxivaError::try_new(ErrorCategory::Validation, "MUXIVA-A-1", "digits and dashes").is_ok());
}

#[test]
fn allocation_releases_after_last_clone() {
    let buffer = FrameBuffer::from_vec(vec![1, 2, 3]);
    let clone = buffer.clone();
    assert_eq!(clone.share_count(), 2);
    drop(buffer);
    assert_eq!(clone.share_count(), 1);
}

#[test]
fn clone_shares_the_same_byte_allocation() {
    let buffer = FrameBuffer::from_vec(vec![1, 2, 3]);
    let clone = buffer.clone();

    assert_eq!(buffer.as_slice().as_ptr(), clone.as_slice().as_ptr());
    assert_eq!(buffer, clone);
    assert!(buffer.same_bytes(&clone));
}

#[test]
fn empty_buffer_and_debug_are_length_only() {
    let buffer = FrameBuffer::from_boxed_slice(Box::new([]));

    assert!(buffer.is_empty());
    assert_eq!(buffer.len(), 0);
    assert_eq!(buffer.debug_string(), "FrameBuffer { len: 0 }");
    assert!(!buffer.debug_string().contains("strong"));
}

#[test]
fn buffer_debug_reports_the_decimal_length() {
    let buffer = FrameBuffer::from_vec(vec![7; 1234]);
    assert_eq!(buffer.debug_string(), "FrameBuffer { len: 1234 }");
    assert!(!FrameBuffer::from_vec(vec![1]).same_bytes(&FrameBuffer::from_vec(vec![2])));
}
