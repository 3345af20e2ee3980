use ferroni::oniguruma::{ONIGERR_MEMORY, ONIGERR_UNDEFINED_NAME_REFERENCE, ONIG_MISMATCH, ONIGERR_INVALID_CHAR_PROPERTY_NAME};
use ferroni::regerror::{
    onig_error_code_to_format, onig_error_code_to_str, onig_error_code_to_str_without_param,
    onig_is_error_code_needs_param,
};

#[test]
fn test_mismatch() {
    assert_eq!(onig_error_code_to_str(ONIG_MISMATCH, None), "mismatch");
}

#[test]
fn test_memory() {
    assert_eq!(
        onig_error_code_to_str(ONIGERR_MEMORY, None),
        "fail to memory allocation"
    );
}

#[test]
fn test_undefined_error() {
    assert_eq!(onig_error_code_to_str(-9999, None), "undefined error code");
}

#[test]
fn test_parameterized_error() {
    let msg = onig_error_code_to_str(ONIGERR_UNDEFINED_NAME_REFERENCE, Some(b"foo"));
    assert_eq!(msg, "undefined name <foo> reference");
}

#[test]
fn test_parameterized_error_no_param() {
    let msg = onig_error_code_to_str(ONIGERR_UNDEFINED_NAME_REFERENCE, None);
    assert_eq!(msg, "undefined name <> reference");
}

#[test]
fn test_needs_param() {
    assert!(onig_is_error_code_needs_param(ONIGERR_UNDEFINED_NAME_REFERENCE));
    assert!(!onig_is_error_code_needs_param(ONIGERR_MEMORY));
    assert!(!onig_is_error_code_needs_param(ONIG_MISMATCH));
}

#[test]
fn parameter_bytes_outside_printable_ascii_are_escaped() {
    let msg = onig_error_code_to_str(ONIGERR_INVALID_CHAR_PROPERTY_NAME, Some(b"a b\n\xff~"));
    assert_eq!(msg, "invalid character property name {a b\\x0a\\xff~}");
}

#[test]
fn format_keeps_placeholder_and_bare_message_drops_it() {
    assert_eq!(
        onig_error_code_to_format(ONIGERR_UNDEFINED_NAME_REFERENCE),
        "undefined name <%n> reference"
    );
    assert_eq!(
        onig_error_code_to_str_without_param(ONIGERR_UNDEFINED_NAME_REFERENCE),
        "undefined name reference"
    );
    assert_eq!(onig_error_code_to_str_without_param(ONIGERR_MEMORY), "fail to memory allocation");
}

#[test]
fn needs_param_exactly_when_the_format_holds_the_placeholder() {
    for code in [ONIG_MISMATCH, ONIGERR_MEMORY, ONIGERR_UNDEFINED_NAME_REFERENCE, ONIGERR_INVALID_CHAR_PROPERTY_NAME, -9999] {
        let format = onig_error_code_to_format(code);
        assert_eq!(onig_is_error_code_needs_param(code), format.contains("%n"));
        if !onig_is_error_code_needs_param(code) {
            assert_eq!(onig_error_code_to_str(code, Some(b"name")), format);
        }
    }
}
