use ferroni::error::RegexError;
use ferroni::oniguruma::{
    ONIGERR_INVALID_ARGUMENT,
    ONIGERR_INVALID_CHAR_IN_GROUP_NAME,
    ONIGERR_INVALID_CHAR_PROPERTY_NAME,
    ONIGERR_INVALID_GROUP_NAME,
    ONIGERR_LIBRARY_IS_NOT_INITIALIZED,
    ONIGERR_MATCH_STACK_LIMIT_OVER,
    ONIGERR_MEMORY,
    ONIGERR_MULTIPLEX_DEFINED_NAME,
    ONIGERR_MULTIPLEX_DEFINITION_NAME_CALL,
    ONIGERR_NOT_SUPPORTED_ENCODING_COMBINATION,
    ONIGERR_PARSER_BUG,
    ONIGERR_PARSE_DEPTH_LIMIT_OVER,
    ONIGERR_PREMATURE_END_OF_CHAR_CLASS,
    ONIGERR_RETRY_LIMIT_IN_MATCH_OVER,
    ONIGERR_RETRY_LIMIT_IN_SEARCH_OVER,
    ONIGERR_SUBEXP_CALL_LIMIT_IN_SEARCH_OVER,
    ONIGERR_TIME_LIMIT_OVER,
    ONIGERR_UNDEFINED_GROUP_REFERENCE,
    ONIGERR_UNDEFINED_NAME_REFERENCE,
};

#[test]
fn from_memory_error() {
    let err = RegexError::from(ONIGERR_MEMORY);
    assert!(matches!(err, RegexError::Memory));
    assert_eq!(err.code(), ONIGERR_MEMORY);
    assert_eq!(err.to_string(), "memory allocation failed");
}

#[test]
fn from_syntax_error() {
    let err = RegexError::from(ONIGERR_PREMATURE_END_OF_CHAR_CLASS);
    assert!(matches!(err, RegexError::Syntax { .. }));
    assert_eq!(err.code(), ONIGERR_PREMATURE_END_OF_CHAR_CLASS);
    assert!(err.to_string().contains("syntax error"));
}

#[test]
fn from_code_drops_name_placeholder() {
    let cases = [
        (ONIGERR_INVALID_GROUP_NAME, "invalid group name"),
        (ONIGERR_INVALID_CHAR_IN_GROUP_NAME, "invalid char in group name"),
        (ONIGERR_UNDEFINED_NAME_REFERENCE, "undefined name reference"),
        (ONIGERR_UNDEFINED_GROUP_REFERENCE, "undefined group reference"),
        (ONIGERR_MULTIPLEX_DEFINED_NAME, "multiplex defined name"),
        (ONIGERR_MULTIPLEX_DEFINITION_NAME_CALL, "multiplex definition name call"),
        (ONIGERR_INVALID_CHAR_PROPERTY_NAME, "invalid character property name"),
    ];
    for (code, message) in cases {
        assert_eq!(
            RegexError::from(code),
            RegexError::Syntax {
                code,
                message: message.to_string()
            }
        );
    }
}

#[test]
fn from_error_name_substitutes_name() {
    let code = ONIGERR_INVALID_CHAR_PROPERTY_NAME;
    let err = RegexError::from_error_name(code, Some(b"Nope"));
    assert_eq!(
        err.to_string(),
        "syntax error: invalid character property name {Nope}"
    );
    // A recorded empty name stays.
    let err = RegexError::from_error_name(code, Some(b""));
    assert_eq!(
        err.to_string(),
        "syntax error: invalid character property name {}"
    );
    // No recorded name: the placeholder goes.
    let err = RegexError::from_error_name(code, None);
    assert_eq!(
        err.to_string(),
        "syntax error: invalid character property name"
    );
    // Codes without a name ignore it.
    let err = RegexError::from_error_name(ONIGERR_MEMORY, Some(b"Nope"));
    assert_eq!(err, RegexError::Memory);
}

#[test]
fn from_internal_bug() {
    let err = RegexError::from(ONIGERR_PARSER_BUG);
    assert!(matches!(err, RegexError::InternalBug { .. }));
}

#[test]
fn from_encoding_error() {
    let err = RegexError::from(ONIGERR_NOT_SUPPORTED_ENCODING_COMBINATION);
    assert!(matches!(err, RegexError::Encoding { .. }));
}

#[test]
fn from_unknown_code() {
    let err = RegexError::from(-9999);
    assert!(matches!(err, RegexError::Other(-9999)));
}

#[test]
fn display_impl() {
    let err = RegexError::InvalidArgument;
    assert_eq!(err.to_string(), "invalid argument");
}

#[test]
fn error_trait() {
    let err = RegexError::Memory;
    assert_eq!(err.to_string(), "memory allocation failed");
}

#[test]
fn display_all_variants() {
    let cases: Vec<(RegexError, &str)> = vec![
        (RegexError::Memory, "memory allocation failed"),
        (RegexError::MatchStackLimitOver, "match-stack limit over"),
        (RegexError::RetryLimitInMatchOver, "retry-limit-in-match over"),
        (RegexError::RetryLimitInSearchOver, "retry-limit-in-search over"),
        (RegexError::SubexpCallLimitOver, "subexp-call-limit-in-search over"),
        (RegexError::TimeLimitOver, "time limit over"),
        (RegexError::ParseDepthLimitOver, "parse depth limit over"),
        (
            RegexError::Syntax {
                code: -100,
                message: "bad pattern".into(),
            },
            "syntax error: bad pattern",
        ),
        (RegexError::InvalidArgument, "invalid argument"),
        (
            RegexError::InternalBug {
                code: -1,
                message: "oops".into(),
            },
            "internal error: oops",
        ),
        (RegexError::NotInitialized, "library is not initialized"),
        (
            RegexError::Encoding {
                code: -21,
                message: "bad enc".into(),
            },
            "encoding error: bad enc",
        ),
        (RegexError::Other(-9999), "error code -9999"),
    ];
    for (err, expected) in cases {
        assert_eq!(err.to_string(), expected);
    }
}

#[test]
fn code_all_variants() {
    assert_eq!(RegexError::Memory.code(), ONIGERR_MEMORY);
    assert_eq!(RegexError::MatchStackLimitOver.code(), ONIGERR_MATCH_STACK_LIMIT_OVER);
    assert_eq!(RegexError::RetryLimitInMatchOver.code(), ONIGERR_RETRY_LIMIT_IN_MATCH_OVER);
    assert_eq!(RegexError::RetryLimitInSearchOver.code(), ONIGERR_RETRY_LIMIT_IN_SEARCH_OVER);
    assert_eq!(RegexError::SubexpCallLimitOver.code(), ONIGERR_SUBEXP_CALL_LIMIT_IN_SEARCH_OVER);
    assert_eq!(RegexError::TimeLimitOver.code(), ONIGERR_TIME_LIMIT_OVER);
    assert_eq!(RegexError::ParseDepthLimitOver.code(), ONIGERR_PARSE_DEPTH_LIMIT_OVER);
    assert_eq!(RegexError::InvalidArgument.code(), ONIGERR_INVALID_ARGUMENT);
    assert_eq!(RegexError::NotInitialized.code(), ONIGERR_LIBRARY_IS_NOT_INITIALIZED);
    assert_eq!(RegexError::Syntax { code: -100, message: String::new() }.code(), -100);
    assert_eq!(RegexError::InternalBug { code: -5, message: String::new() }.code(), -5);
    assert_eq!(RegexError::Encoding { code: -21, message: String::new() }.code(), -21);
    assert_eq!(RegexError::Other(-9999).code(), -9999);
}

#[test]
fn from_limit_errors() {
    assert!(matches!(RegexError::from(ONIGERR_MATCH_STACK_LIMIT_OVER), RegexError::MatchStackLimitOver));
    assert!(matches!(RegexError::from(ONIGERR_RETRY_LIMIT_IN_MATCH_OVER), RegexError::RetryLimitInMatchOver));
    assert!(matches!(RegexError::from(ONIGERR_RETRY_LIMIT_IN_SEARCH_OVER), RegexError::RetryLimitInSearchOver));
    assert!(matches!(RegexError::from(ONIGERR_SUBEXP_CALL_LIMIT_IN_SEARCH_OVER), RegexError::SubexpCallLimitOver));
    assert!(matches!(RegexError::from(ONIGERR_TIME_LIMIT_OVER), RegexError::TimeLimitOver));
    assert!(matches!(RegexError::from(ONIGERR_PARSE_DEPTH_LIMIT_OVER), RegexError::ParseDepthLimitOver));
    assert!(matches!(RegexError::from(ONIGERR_INVALID_ARGUMENT), RegexError::InvalidArgument));
    assert!(matches!(RegexError::from(ONIGERR_LIBRARY_IS_NOT_INITIALIZED), RegexError::NotInitialized));
}

#[test]
fn every_code_comes_back_from_its_error() {
    for code in -1100..5 {
        assert_eq!(RegexError::from(code).code(), code);
    }
    assert_eq!(RegexError::Other(i32::MIN).to_string(), "error code -2147483648");
    assert_eq!(RegexError::Other(0).to_string(), "error code 0");
    assert_eq!(RegexError::Other(1234).to_string(), "error code 1234");
}
