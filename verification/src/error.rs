//! The error type of compilation and matching, grouping the numeric codes.
use vstd::prelude::*;
use vstd::string::StringExecFns;

use crate::oniguruma::{
    is_pattern_error_code, onig_is_pattern_error, ONIGERR_DEFAULT_ENCODING_IS_NOT_SET,
    ONIGERR_INVALID_ARGUMENT, ONIGERR_LIBRARY_IS_NOT_INITIALIZED, ONIGERR_MATCH_STACK_LIMIT_OVER,
    ONIGERR_MEMORY, ONIGERR_NOT_SUPPORTED_ENCODING_COMBINATION, ONIGERR_PARSER_BUG,
    ONIGERR_PARSE_DEPTH_LIMIT_OVER, ONIGERR_RETRY_LIMIT_IN_MATCH_OVER,
    ONIGERR_RETRY_LIMIT_IN_SEARCH_OVER, ONIGERR_SPECIFIED_ENCODING_CANT_CONVERT_TO_WIDE_CHAR,
    ONIGERR_STACK_BUG, ONIGERR_SUBEXP_CALL_LIMIT_IN_SEARCH_OVER, ONIGERR_TIME_LIMIT_OVER,
    ONIGERR_TYPE_BUG, ONIGERR_UNDEFINED_BYTECODE, ONIGERR_UNEXPECTED_BYTECODE,
};
use crate::regerror::{
    error_message, error_message_without_param, onig_error_code_to_str,
    onig_error_code_to_str_without_param, string_push,
};

verus! {

/// Error type for regex compilation and matching operations.
#[derive(Debug, Clone, PartialEq, Eq)]
pub enum RegexError {
    /// Memory allocation failure.
    Memory,
    /// Match-stack limit exceeded.
    MatchStackLimitOver,
    /// Retry limit in match exceeded.
    RetryLimitInMatchOver,
    /// Retry limit in search exceeded.
    RetryLimitInSearchOver,
    /// Subexpression call limit exceeded.
    SubexpCallLimitOver,
    /// Time limit exceeded.
    TimeLimitOver,
    /// Parse depth limit exceeded.
    ParseDepthLimitOver,
    /// Syntax error in the pattern.
    Syntax { code: i32, message: String },
    /// Invalid argument passed to a function.
    InvalidArgument,
    /// Internal engine bug.
    InternalBug { code: i32, message: String },
    /// Library not initialized.
    NotInitialized,
    /// Invalid encoding or encoding combination.
    Encoding { code: i32, message: String },
    /// Any other code.
    Other(i32),
}

/// The codes reported as internal bugs.
pub open spec fn is_internal_bug_code(code: i32) -> bool {
    code == ONIGERR_TYPE_BUG || code == ONIGERR_PARSER_BUG || code == ONIGERR_STACK_BUG || code
        == ONIGERR_UNDEFINED_BYTECODE || code == ONIGERR_UNEXPECTED_BYTECODE
}

/// The codes reported as encoding errors.
pub open spec fn is_encoding_error_code(code: i32) -> bool {
    code == ONIGERR_DEFAULT_ENCODING_IS_NOT_SET || code
        == ONIGERR_SPECIFIED_ENCODING_CANT_CONVERT_TO_WIDE_CHAR || code
        == ONIGERR_NOT_SUPPORTED_ENCODING_COMBINATION
}

impl RegexError {
    /// Whether this error is the one `code` is reported as, carrying `message`
    /// where the variant has a message. The checks go in order: the limits and
    /// other fixed codes first, then internal bugs, encoding errors, syntax errors.
    pub open spec fn reports(&self, code: i32, message: Seq<char>) -> bool {
        if code == ONIGERR_MEMORY {
            *self == RegexError::Memory
        } else if code == ONIGERR_MATCH_STACK_LIMIT_OVER {
            *self == RegexError::MatchStackLimitOver
        } else if code == ONIGERR_RETRY_LIMIT_IN_MATCH_OVER {
            *self == RegexError::RetryLimitInMatchOver
        } else if code == ONIGERR_RETRY_LIMIT_IN_SEARCH_OVER {
            *self == RegexError::RetryLimitInSearchOver
        } else if code == ONIGERR_SUBEXP_CALL_LIMIT_IN_SEARCH_OVER {
            *self == RegexError::SubexpCallLimitOver
        } else if code == ONIGERR_TIME_LIMIT_OVER {
            *self == RegexError::TimeLimitOver
        } else if code == ONIGERR_PARSE_DEPTH_LIMIT_OVER {
            *self == RegexError::ParseDepthLimitOver
        } else if code == ONIGERR_INVALID_ARGUMENT {
            *self == RegexError::InvalidArgument
        } else if code == ONIGERR_LIBRARY_IS_NOT_INITIALIZED {
            *self == RegexError::NotInitialized
        } else if is_internal_bug_code(code) {
            self matches RegexError::InternalBug { code: c, message: m } && c == code && m@ == message
        } else if is_encoding_error_code(code) {
            self matches RegexError::Encoding { code: c, message: m } && c == code && m@ == message
        } else if is_pattern_error_code(code) {
            self matches RegexError::Syntax { code: c, message: m } && c == code && m@ == message
        } else {
            *self == RegexError::Other(code)
        }
    }

    /// The code this error stands for.
    pub open spec fn code_spec(&self) -> i32 {
        match self {
            RegexError::Memory => ONIGERR_MEMORY,
            RegexError::MatchStackLimitOver => ONIGERR_MATCH_STACK_LIMIT_OVER,
            RegexError::RetryLimitInMatchOver => ONIGERR_RETRY_LIMIT_IN_MATCH_OVER,
            RegexError::RetryLimitInSearchOver => ONIGERR_RETRY_LIMIT_IN_SEARCH_OVER,
            RegexError::SubexpCallLimitOver => ONIGERR_SUBEXP_CALL_LIMIT_IN_SEARCH_OVER,
            RegexError::TimeLimitOver => ONIGERR_TIME_LIMIT_OVER,
            RegexError::ParseDepthLimitOver => ONIGERR_PARSE_DEPTH_LIMIT_OVER,
            RegexError::InvalidArgument => ONIGERR_INVALID_ARGUMENT,
            RegexError::NotInitialized => ONIGERR_LIBRARY_IS_NOT_INITIALIZED,
            RegexError::Syntax { code, .. } => *code,
            RegexError::InternalBug { code, .. } => *code,
            RegexError::Encoding { code, .. } => *code,
            RegexError::Other(code) => *code,
        }
    }

    /// Builds the error for `code` with a message where no name is known: a
    /// message that would name a group or property drops the placeholder.
    pub fn from_code(code: i32) -> (r: Self)
        ensures
            r.reports(code, error_message_without_param(code)),
    {
        let message = onig_error_code_to_str_without_param(code);
        RegexError::with_message(code, message)
    }

    /// Builds the error a compilation reports. With the recorded name, the
    /// message names it; without one, the placeholder is dropped as in `from_code`.
    pub fn from_error_name(code: i32, name: Option<&[u8]>) -> (r: Self)
        ensures
            match name {
                Some(n) => r.reports(code, error_message(code, Some(n@))),
                None => r.reports(code, error_message_without_param(code)),
            },
    {
        match name {
            Some(n) => {
                let message = onig_error_code_to_str(code, Some(n));
                RegexError::with_message(code, message)
            },
            None => RegexError::from_code(code),
        }
    }

    fn with_message(code: i32, message: String) -> (r: Self)
        ensures
            r.reports(code, message@),
    {
        if code == ONIGERR_MEMORY {
            RegexError::Memory
        } else if code == ONIGERR_MATCH_STACK_LIMIT_OVER {
            RegexError::MatchStackLimitOver
        } else if code == ONIGERR_RETRY_LIMIT_IN_MATCH_OVER {
            RegexError::RetryLimitInMatchOver
        } else if code == ONIGERR_RETRY_LIMIT_IN_SEARCH_OVER {
            RegexError::RetryLimitInSearchOver
        } else if code == ONIGERR_SUBEXP_CALL_LIMIT_IN_SEARCH_OVER {
            RegexError::SubexpCallLimitOver
        } else if code == ONIGERR_TIME_LIMIT_OVER {
            RegexError::TimeLimitOver
        } else if code == ONIGERR_PARSE_DEPTH_LIMIT_OVER {
            RegexError::ParseDepthLimitOver
        } else if code == ONIGERR_INVALID_ARGUMENT {
            RegexError::InvalidArgument
        } else if code == ONIGERR_LIBRARY_IS_NOT_INITIALIZED {
            RegexError::NotInitialized
        } else if code == ONIGERR_TYPE_BUG || code == ONIGERR_PARSER_BUG || code == ONIGERR_STACK_BUG
            || code == ONIGERR_UNDEFINED_BYTECODE || code == ONIGERR_UNEXPECTED_BYTECODE {
            RegexError::InternalBug { code, message }
        } else if code == ONIGERR_DEFAULT_ENCODING_IS_NOT_SET || code
            == ONIGERR_SPECIFIED_ENCODING_CANT_CONVERT_TO_WIDE_CHAR || code
            == ONIGERR_NOT_SUPPORTED_ENCODING_COMBINATION {
            RegexError::Encoding { code, message }
        } else if onig_is_pattern_error(code) {
            RegexError::Syntax { code, message }
        } else {
            RegexError::Other(code)
        }
    }

    /// Returns the numeric error code.
    pub fn code(&self) -> (r: i32)
        ensures
            r == self.code_spec(),
    {
        match self {
            RegexError::Memory => ONIGERR_MEMORY,
            RegexError::MatchStackLimitOver => ONIGERR_MATCH_STACK_LIMIT_OVER,
            RegexError::RetryLimitInMatchOver => ONIGERR_RETRY_LIMIT_IN_MATCH_OVER,
            RegexError::RetryLimitInSearchOver => ONIGERR_RETRY_LIMIT_IN_SEARCH_OVER,
            RegexError::SubexpCallLimitOver => ONIGERR_SUBEXP_CALL_LIMIT_IN_SEARCH_OVER,
            RegexError::TimeLimitOver => ONIGERR_TIME_LIMIT_OVER,
            RegexError::ParseDepthLimitOver => ONIGERR_PARSE_DEPTH_LIMIT_OVER,
            RegexError::InvalidArgument => ONIGERR_INVALID_ARGUMENT,
            RegexError::NotInitialized => ONIGERR_LIBRARY_IS_NOT_INITIALIZED,
            RegexError::Syntax { code, .. } => *code,
            RegexError::InternalBug { code, .. } => *code,
            RegexError::Encoding { code, .. } => *code,
            RegexError::Other(code) => *code,
        }
    }

    /// The text that describes the error.
    pub open spec fn display(&self) -> Seq<char> {
        match self {
            RegexError::Memory => "memory allocation failed"@,
            RegexError::MatchStackLimitOver => "match-stack limit over"@,
            RegexError::RetryLimitInMatchOver => "retry-limit-in-match over"@,
            RegexError::RetryLimitInSearchOver => "retry-limit-in-search over"@,
            RegexError::SubexpCallLimitOver => "subexp-call-limit-in-search over"@,
            RegexError::TimeLimitOver => "time limit over"@,
            RegexError::ParseDepthLimitOver => "parse depth limit over"@,
            RegexError::Syntax { message, .. } => "syntax error: "@ + message@,
            RegexError::InvalidArgument => "invalid argument"@,
            RegexError::InternalBug { message, .. } => "internal error: "@ + message@,
            RegexError::NotInitialized => "library is not initialized"@,
            RegexError::Encoding { message, .. } => "encoding error: "@ + message@,
            RegexError::Other(code) => "error code "@ + decimal_int(*code as int),
        }
    }

    /// The text that describes the error.
    pub fn to_string(&self) -> (r: String)
        ensures
            r@ == self.display(),
    {
        match self {
            RegexError::Memory => String::from_str("memory allocation failed"),
            RegexError::MatchStackLimitOver => String::from_str("match-stack limit over"),
            RegexError::RetryLimitInMatchOver => String::from_str("retry-limit-in-match over"),
            RegexError::RetryLimitInSearchOver => String::from_str("retry-limit-in-search over"),
            RegexError::SubexpCallLimitOver => String::from_str("subexp-call-limit-in-search over"),
            RegexError::TimeLimitOver => String::from_str("time limit over"),
            RegexError::ParseDepthLimitOver => String::from_str("parse depth limit over"),
            RegexError::Syntax { message, .. } => {
                let mut s = String::from_str("syntax error: ");
                s.append(message.as_str());
                s
            },
            RegexError::InvalidArgument => String::from_str("invalid argument"),
            RegexError::InternalBug { message, .. } => {
                let mut s = String::from_str("internal error: ");
                s.append(message.as_str());
                s
            },
            RegexError::NotInitialized => String::from_str("library is not initialized"),
            RegexError::Encoding { message, .. } => {
                let mut s = String::from_str("encoding error: ");
                s.append(message.as_str());
                s
            },
            RegexError::Other(code) => {
                let mut s = String::from_str("error code ");
                push_decimal_i32(&mut s, *code);
                s
            },
        }
    }
}

impl From<i32> for RegexError {
    /// Builds the error from a bare code, as `RegexError::from_code` does.
    fn from(code: i32) -> (r: Self)
        ensures
            r.reports(code, error_message_without_param(code)),
    {
        RegexError::from_code(code)
    }
}

/// The result of `from` is stated by its own `ensures` (`reports`); the
/// message field is a `String`, which no spec function can build, so no
/// `from_spec` value is given.
impl vstd::std_specs::convert::FromSpecImpl<i32> for RegexError {
    open spec fn obeys_from_spec() -> bool {
        false
    }

    open spec fn from_spec(v: i32) -> Self {
        RegexError::Other(v)
    }
}

/// The decimal digit of `d` (0 to 9).
pub open spec fn digit_char(d: nat) -> char {
    (0x30 + d) as char
}

/// The decimal digits of `n`, most significant first.
pub open spec fn decimal_nat(n: nat) -> Seq<char>
    decreases n,
{
    if n < 10 {
        seq![digit_char(n)]
    } else {
        decimal_nat(n / 10).push(digit_char(n % 10))
    }
}

/// The decimal text of `n`, with a leading `-` when negative.
pub open spec fn decimal_int(n: int) -> Seq<char> {
    if n < 0 {
        seq!['-'] + decimal_nat((-n) as nat)
    } else {
        decimal_nat(n as nat)
    }
}

fn push_decimal_u64(out: &mut String, n: u64)
    ensures
        final(out)@ == old(out)@ + decimal_nat(n as nat),
    decreases n,
{
    if n >= 10 {
        push_decimal_u64(out, n / 10);
    }
    let d = (n % 10) as u8;
    string_push(out, (0x30 + d) as char);
    proof {
        if n >= 10 {
            assert(old(out)@ + decimal_nat(n as nat) =~= old(out)@ + decimal_nat((n / 10) as nat) + seq![
                digit_char((n % 10) as nat),
            ]);
        } else {
            assert(decimal_nat(n as nat) == seq![digit_char(n as nat)]);
        }
    }
}

fn push_decimal_i32(out: &mut String, n: i32)
    ensures
        final(out)@ == old(out)@ + decimal_int(n as int),
{
    if n < 0 {
        string_push(out, '-');
        let m: i64 = -(n as i64);
        push_decimal_u64(out, m as u64);
        assert(out@ =~= old(out)@ + decimal_int(n as int));
    } else {
        push_decimal_u64(out, n as u64);
    }
}

/// Every error built from a code gives that code back.
pub proof fn lemma_from_code_keeps_code(e: RegexError, code: i32, message: Seq<char>)
    requires
        e.reports(code, message),
    ensures
        e.code_spec() == code,
{
}

} // verus!
