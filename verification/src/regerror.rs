//! Error codes to messages.
use vstd::prelude::*;
use vstd::string::StringExecFns;

use crate::oniguruma::{
    ONIGERR_INVALID_CHAR_IN_GROUP_NAME, ONIGERR_INVALID_CHAR_PROPERTY_NAME,
    ONIGERR_INVALID_GROUP_NAME, ONIGERR_MULTIPLEX_DEFINED_NAME,
    ONIGERR_MULTIPLEX_DEFINITION_NAME_CALL, ONIGERR_UNDEFINED_GROUP_REFERENCE,
    ONIGERR_UNDEFINED_NAME_REFERENCE,
};

verus! {

/// The message format of each error code; `%n` marks where a name goes.
pub open spec fn error_format(code: i32) -> Seq<char> {
    match code {
        -1 => "mismatch"@,
        -2 => "no support in this configuration"@,
        -3 => "abort"@,
        -5 => "fail to memory allocation"@,
        -15 => "match-stack limit over"@,
        -16 => "parse depth limit over"@,
        -17 => "retry-limit-in-match over"@,
        -18 => "retry-limit-in-search over"@,
        -19 => "subexp-call-limit-in-search over"@,
        -6 => "undefined type (bug)"@,
        -11 => "internal parser error (bug)"@,
        -12 => "stack error (bug)"@,
        -13 => "undefined bytecode (bug)"@,
        -14 => "unexpected bytecode (bug)"@,
        -21 => "default multibyte-encoding is not set"@,
        -22 => "can't convert to wide-char on specified multibyte-encoding"@,
        -23 => "fail to initialize"@,
        -30 => "invalid argument"@,
        -100 => "end pattern at left brace"@,
        -101 => "end pattern at left bracket"@,
        -102 => "empty char-class"@,
        -103 => "premature end of char-class"@,
        -104 => "end pattern at escape"@,
        -105 => "end pattern at meta"@,
        -106 => "end pattern at control"@,
        -108 => "invalid meta-code syntax"@,
        -109 => "invalid control-code syntax"@,
        -110 => "char-class value at end of range"@,
        -111 => "char-class value at start of range"@,
        -112 => "unmatched range specifier in char-class"@,
        -113 => "target of repeat operator is not specified"@,
        -114 => "target of repeat operator is invalid"@,
        -115 => "nested repeat operator"@,
        -116 => "unmatched close parenthesis"@,
        -117 => "end pattern with unmatched parenthesis"@,
        -118 => "end pattern in group"@,
        -119 => "undefined group option"@,
        -120 => "invalid group option"@,
        -121 => "invalid POSIX bracket type"@,
        -122 => "invalid pattern in look-behind"@,
        -123 => "invalid repeat range {lower,upper}"@,
        -200 => "too big number"@,
        -201 => "too big number for repeat range"@,
        -202 => "upper is smaller than lower in repeat range"@,
        -203 => "empty range in char class"@,
        -204 => "mismatch multibyte code length in char-class range"@,
        -205 => "too many multibyte code ranges are specified"@,
        -206 => "too short multibyte code string"@,
        -207 => "too big backref number"@,
        -208 => "invalid backref number/name"@,
        -209 => "numbered backref/call is not allowed. (use name)"@,
        -210 => "too many captures"@,
        -401 => "too big wide-char value"@,
        -212 => "too long wide-char value"@,
        -213 => "undefined operator"@,
        -400 => "invalid code point value"@,
        -214 => "group name is empty"@,
        -215 => "invalid group name <%n>"@,
        -216 => "invalid char in group name <%n>"@,
        -217 => "undefined name <%n> reference"@,
        -218 => "undefined group <%n> reference"@,
        -219 => "multiplex defined name <%n>"@,
        -220 => "multiplex definition name <%n> call"@,
        -221 => "never ending recursion"@,
        -222 => "group number is too big for capture history"@,
        -223 => "invalid character property name {%n}"@,
        -224 => "invalid if-else syntax"@,
        -225 => "invalid absent group pattern"@,
        -226 => "invalid absent group generator pattern"@,
        -227 => "invalid callout pattern"@,
        -228 => "invalid callout name"@,
        -229 => "undefined callout name"@,
        -230 => "invalid callout body"@,
        -231 => "invalid callout tag name"@,
        -232 => "invalid callout arg"@,
        -402 => "not supported encoding combination"@,
        -403 => "invalid combination of options"@,
        -406 => "very inefficient pattern"@,
        -500 => "library is not initialized"@,
        _ => "undefined error code"@,
    }
}

/// The message format of an error code; `%n` marks where a name goes.
pub fn onig_error_code_to_format(code: i32) -> (r: &'static str)
    ensures
        r@ == error_format(code),
{
    match code {
        -1 => "mismatch",
        -2 => "no support in this configuration",
        -3 => "abort",
        -5 => "fail to memory allocation",
        -15 => "match-stack limit over",
        -16 => "parse depth limit over",
        -17 => "retry-limit-in-match over",
        -18 => "retry-limit-in-search over",
        -19 => "subexp-call-limit-in-search over",
        -6 => "undefined type (bug)",
        -11 => "internal parser error (bug)",
        -12 => "stack error (bug)",
        -13 => "undefined bytecode (bug)",
        -14 => "unexpected bytecode (bug)",
        -21 => "default multibyte-encoding is not set",
        -22 => "can't convert to wide-char on specified multibyte-encoding",
        -23 => "fail to initialize",
        -30 => "invalid argument",
        -100 => "end pattern at left brace",
        -101 => "end pattern at left bracket",
        -102 => "empty char-class",
        -103 => "premature end of char-class",
        -104 => "end pattern at escape",
        -105 => "end pattern at meta",
        -106 => "end pattern at control",
        -108 => "invalid meta-code syntax",
        -109 => "invalid control-code syntax",
        -110 => "char-class value at end of range",
        -111 => "char-class value at start of range",
        -112 => "unmatched range specifier in char-class",
        -113 => "target of repeat operator is not specified",
        -114 => "target of repeat operator is invalid",
        -115 => "nested repeat operator",
        -116 => "unmatched close parenthesis",
        -117 => "end pattern with unmatched parenthesis",
        -118 => "end pattern in group",
        -119 => "undefined group option",
        -120 => "invalid group option",
        -121 => "invalid POSIX bracket type",
        -122 => "invalid pattern in look-behind",
        -123 => "invalid repeat range {lower,upper}",
        -200 => "too big number",
        -201 => "too big number for repeat range",
        -202 => "upper is smaller than lower in repeat range",
        -203 => "empty range in char class",
        -204 => "mismatch multibyte code length in char-class range",
        -205 => "too many multibyte code ranges are specified",
        -206 => "too short multibyte code string",
        -207 => "too big backref number",
        -208 => "invalid backref number/name",
        -209 => "numbered backref/call is not allowed. (use name)",
        -210 => "too many captures",
        -401 => "too big wide-char value",
        -212 => "too long wide-char value",
        -213 => "undefined operator",
        -400 => "invalid code point value",
        -214 => "group name is empty",
        -215 => "invalid group name <%n>",
        -216 => "invalid char in group name <%n>",
        -217 => "undefined name <%n> reference",
        -218 => "undefined group <%n> reference",
        -219 => "multiplex defined name <%n>",
        -220 => "multiplex definition name <%n> call",
        -221 => "never ending recursion",
        -222 => "group number is too big for capture history",
        -223 => "invalid character property name {%n}",
        -224 => "invalid if-else syntax",
        -225 => "invalid absent group pattern",
        -226 => "invalid absent group generator pattern",
        -227 => "invalid callout pattern",
        -228 => "invalid callout name",
        -229 => "undefined callout name",
        -230 => "invalid callout body",
        -231 => "invalid callout tag name",
        -232 => "invalid callout arg",
        -402 => "not supported encoding combination",
        -403 => "invalid combination of options",
        -406 => "very inefficient pattern",
        -500 => "library is not initialized",
        _ => "undefined error code",
    }
}

/// The codes whose message names a group or property.
pub open spec fn needs_param(code: i32) -> bool {
    code == ONIGERR_UNDEFINED_NAME_REFERENCE || code == ONIGERR_UNDEFINED_GROUP_REFERENCE || code
        == ONIGERR_MULTIPLEX_DEFINED_NAME || code == ONIGERR_MULTIPLEX_DEFINITION_NAME_CALL || code
        == ONIGERR_INVALID_GROUP_NAME || code == ONIGERR_INVALID_CHAR_IN_GROUP_NAME || code
        == ONIGERR_INVALID_CHAR_PROPERTY_NAME
}

/// Whether the message of `code` names a group or property.
pub fn onig_is_error_code_needs_param(code: i32) -> (r: bool)
    ensures
        r == needs_param(code),
{
    code == ONIGERR_UNDEFINED_NAME_REFERENCE || code == ONIGERR_UNDEFINED_GROUP_REFERENCE || code
        == ONIGERR_MULTIPLEX_DEFINED_NAME || code == ONIGERR_MULTIPLEX_DEFINITION_NAME_CALL || code
        == ONIGERR_INVALID_GROUP_NAME || code == ONIGERR_INVALID_CHAR_IN_GROUP_NAME || code
        == ONIGERR_INVALID_CHAR_PROPERTY_NAME
}

/// The text of a parameterized format before and after `%n`, and the message
/// with the placeholder and its brackets dropped.
pub open spec fn param_parts(code: i32) -> (Seq<char>, Seq<char>, Seq<char>) {
    if code == ONIGERR_UNDEFINED_NAME_REFERENCE {
        ("undefined name <"@, "> reference"@, "undefined name reference"@)
    } else if code == ONIGERR_UNDEFINED_GROUP_REFERENCE {
        ("undefined group <"@, "> reference"@, "undefined group reference"@)
    } else if code == ONIGERR_MULTIPLEX_DEFINED_NAME {
        ("multiplex defined name <"@, ">"@, "multiplex defined name"@)
    } else if code == ONIGERR_MULTIPLEX_DEFINITION_NAME_CALL {
        ("multiplex definition name <"@, "> call"@, "multiplex definition name call"@)
    } else if code == ONIGERR_INVALID_GROUP_NAME {
        ("invalid group name <"@, ">"@, "invalid group name"@)
    } else if code == ONIGERR_INVALID_CHAR_IN_GROUP_NAME {
        ("invalid char in group name <"@, ">"@, "invalid char in group name"@)
    } else {
        ("invalid character property name {"@, "}"@, "invalid character property name"@)
    }
}

/// The parts of a parameterized format, as `param_parts` names them.
fn param_parts_of(code: i32) -> (r: (&'static str, &'static str, &'static str))
    ensures
        (r.0@, r.1@, r.2@) == param_parts(code),
{
    if code == ONIGERR_UNDEFINED_NAME_REFERENCE {
        ("undefined name <", "> reference", "undefined name reference")
    } else if code == ONIGERR_UNDEFINED_GROUP_REFERENCE {
        ("undefined group <", "> reference", "undefined group reference")
    } else if code == ONIGERR_MULTIPLEX_DEFINED_NAME {
        ("multiplex defined name <", ">", "multiplex defined name")
    } else if code == ONIGERR_MULTIPLEX_DEFINITION_NAME_CALL {
        ("multiplex definition name <", "> call", "multiplex definition name call")
    } else if code == ONIGERR_INVALID_GROUP_NAME {
        ("invalid group name <", ">", "invalid group name")
    } else if code == ONIGERR_INVALID_CHAR_IN_GROUP_NAME {
        ("invalid char in group name <", ">", "invalid char in group name")
    } else {
        ("invalid character property name {", "}", "invalid character property name")
    }
}


/// Each parameterized format is the text before `%n`, then `%n`, then the text
/// after; and the bare message is the format with ` <%n>` or ` {%n}` taken out.
pub proof fn lemma_param_format(code: i32)
    requires
        needs_param(code),
    ensures
        error_format(code) == param_parts(code).0 + "%n"@ + param_parts(code).1,
{
    reveal_strlit("%n");
    if code == ONIGERR_UNDEFINED_NAME_REFERENCE {
        reveal_strlit("undefined name <%n> reference");
        reveal_strlit("undefined name <");
        reveal_strlit("> reference");
        assert(error_format(code) =~= param_parts(code).0 + "%n"@ + param_parts(code).1);
    } else if code == ONIGERR_UNDEFINED_GROUP_REFERENCE {
        reveal_strlit("undefined group <%n> reference");
        reveal_strlit("undefined group <");
        reveal_strlit("> reference");
        assert(error_format(code) =~= param_parts(code).0 + "%n"@ + param_parts(code).1);
    } else if code == ONIGERR_MULTIPLEX_DEFINED_NAME {
        reveal_strlit("multiplex defined name <%n>");
        reveal_strlit("multiplex defined name <");
        reveal_strlit(">");
        assert(error_format(code) =~= param_parts(code).0 + "%n"@ + param_parts(code).1);
    } else if code == ONIGERR_MULTIPLEX_DEFINITION_NAME_CALL {
        reveal_strlit("multiplex definition name <%n> call");
        reveal_strlit("multiplex definition name <");
        reveal_strlit("> call");
        assert(error_format(code) =~= param_parts(code).0 + "%n"@ + param_parts(code).1);
    } else if code == ONIGERR_INVALID_GROUP_NAME {
        reveal_strlit("invalid group name <%n>");
        reveal_strlit("invalid group name <");
        reveal_strlit(">");
        assert(error_format(code) =~= param_parts(code).0 + "%n"@ + param_parts(code).1);
    } else if code == ONIGERR_INVALID_CHAR_IN_GROUP_NAME {
        reveal_strlit("invalid char in group name <%n>");
        reveal_strlit("invalid char in group name <");
        reveal_strlit(">");
        assert(error_format(code) =~= param_parts(code).0 + "%n"@ + param_parts(code).1);
    } else {
        reveal_strlit("invalid character property name {%n}");
        reveal_strlit("invalid character property name {");
        reveal_strlit("}");
        assert(error_format(code) =~= param_parts(code).0 + "%n"@ + param_parts(code).1);
    }
}

/// `s` holds the placeholder `%n`.
pub open spec fn has_placeholder(s: Seq<char>) -> bool {
    exists|i: int| 0 <= i < s.len() - 1 && #[trigger] s[i] == '%' && s[i + 1] == 'n'
}

/// A code's message takes a name exactly when its format holds `%n`:
/// `onig_is_error_code_needs_param(code)` (which answers `needs_param(code)`)
/// is true exactly when `onig_error_code_to_format(code)` (whose view is
/// `error_format(code)`) contains `%n`. And when it is false,
/// `onig_error_code_to_str(code, p)` (whose view is `error_message(code, p)`)
/// is that format, whatever name `p` is given.
pub proof fn lemma_needs_param_iff_placeholder(code: i32)
    ensures
        needs_param(code) <==> has_placeholder(error_format(code)),
        !needs_param(code) ==> forall|p: Option<Seq<u8>>| #[trigger] error_message(code, p) == error_format(code),
{
    match code {
        -1 => {
            reveal_strlit("mismatch");
        },
        -2 => {
            reveal_strlit("no support in this configuration");
        },
        -3 => {
            reveal_strlit("abort");
        },
        -5 => {
            reveal_strlit("fail to memory allocation");
        },
        -15 => {
            reveal_strlit("match-stack limit over");
        },
        -16 => {
            reveal_strlit("parse depth limit over");
        },
        -17 => {
            reveal_strlit("retry-limit-in-match over");
        },
        -18 => {
            reveal_strlit("retry-limit-in-search over");
        },
        -19 => {
            reveal_strlit("subexp-call-limit-in-search over");
        },
        -6 => {
            reveal_strlit("undefined type (bug)");
        },
        -11 => {
            reveal_strlit("internal parser error (bug)");
        },
        -12 => {
            reveal_strlit("stack error (bug)");
        },
        -13 => {
            reveal_strlit("undefined bytecode (bug)");
        },
        -14 => {
            reveal_strlit("unexpected bytecode (bug)");
        },
        -21 => {
            reveal_strlit("default multibyte-encoding is not set");
        },
        -22 => {
            reveal_strlit("can't convert to wide-char on specified multibyte-encoding");
        },
        -23 => {
            reveal_strlit("fail to initialize");
        },
        -30 => {
            reveal_strlit("invalid argument");
        },
        -100 => {
            reveal_strlit("end pattern at left brace");
        },
        -101 => {
            reveal_strlit("end pattern at left bracket");
        },
        -102 => {
            reveal_strlit("empty char-class");
        },
        -103 => {
            reveal_strlit("premature end of char-class");
        },
        -104 => {
            reveal_strlit("end pattern at escape");
        },
        -105 => {
            reveal_strlit("end pattern at meta");
        },
        -106 => {
            reveal_strlit("end pattern at control");
        },
        -108 => {
            reveal_strlit("invalid meta-code syntax");
        },
        -109 => {
            reveal_strlit("invalid control-code syntax");
        },
        -110 => {
            reveal_strlit("char-class value at end of range");
        },
        -111 => {
            reveal_strlit("char-class value at start of range");
        },
        -112 => {
            reveal_strlit("unmatched range specifier in char-class");
        },
        -113 => {
            reveal_strlit("target of repeat operator is not specified");
        },
        -114 => {
            reveal_strlit("target of repeat operator is invalid");
        },
        -115 => {
            reveal_strlit("nested repeat operator");
        },
        -116 => {
            reveal_strlit("unmatched close parenthesis");
        },
        -117 => {
            reveal_strlit("end pattern with unmatched parenthesis");
        },
        -118 => {
            reveal_strlit("end pattern in group");
        },
        -119 => {
            reveal_strlit("undefined group option");
        },
        -120 => {
            reveal_strlit("invalid group option");
        },
        -121 => {
            reveal_strlit("invalid POSIX bracket type");
        },
        -122 => {
            reveal_strlit("invalid pattern in look-behind");
        },
        -123 => {
            reveal_strlit("invalid repeat range {lower,upper}");
        },
        -200 => {
            reveal_strlit("too big number");
        },
        -201 => {
            reveal_strlit("too big number for repeat range");
        },
        -202 => {
            reveal_strlit("upper is smaller than lower in repeat range");
        },
        -203 => {
            reveal_strlit("empty range in char class");
        },
        -204 => {
            reveal_strlit("mismatch multibyte code length in char-class range");
        },
        -205 => {
            reveal_strlit("too many multibyte code ranges are specified");
        },
        -206 => {
            reveal_strlit("too short multibyte code string");
        },
        -207 => {
            reveal_strlit("too big backref number");
        },
        -208 => {
            reveal_strlit("invalid backref number/name");
        },
        -209 => {
            reveal_strlit("numbered backref/call is not allowed. (use name)");
        },
        -210 => {
            reveal_strlit("too many captures");
        },
        -401 => {
            reveal_strlit("too big wide-char value");
        },
        -212 => {
            reveal_strlit("too long wide-char value");
        },
        -213 => {
            reveal_strlit("undefined operator");
        },
        -400 => {
            reveal_strlit("invalid code point value");
        },
        -214 => {
            reveal_strlit("group name is empty");
        },
        -215 => {
            lemma_param_format(code);
            reveal_strlit("%n");
            assert(has_placeholder(param_parts(code).0 + "%n"@ + param_parts(code).1)) by {
                let i = param_parts(code).0.len() as int;
                assert((param_parts(code).0 + "%n"@ + param_parts(code).1)[i] == '%');
                assert((param_parts(code).0 + "%n"@ + param_parts(code).1)[i + 1] == 'n');
            }
        },
        -216 => {
            lemma_param_format(code);
            reveal_strlit("%n");
            assert(has_placeholder(param_parts(code).0 + "%n"@ + param_parts(code).1)) by {
                let i = param_parts(code).0.len() as int;
                assert((param_parts(code).0 + "%n"@ + param_parts(code).1)[i] == '%');
                assert((param_parts(code).0 + "%n"@ + param_parts(code).1)[i + 1] == 'n');
            }
        },
        -217 => {
            lemma_param_format(code);
            reveal_strlit("%n");
            assert(has_placeholder(param_parts(code).0 + "%n"@ + param_parts(code).1)) by {
                let i = param_parts(code).0.len() as int;
                assert((param_parts(code).0 + "%n"@ + param_parts(code).1)[i] == '%');
                assert((param_parts(code).0 + "%n"@ + param_parts(code).1)[i + 1] == 'n');
            }
        },
        -218 => {
            lemma_param_format(code);
            reveal_strlit("%n");
            assert(has_placeholder(param_parts(code).0 + "%n"@ + param_parts(code).1)) by {
                let i = param_parts(code).0.len() as int;
                assert((param_parts(code).0 + "%n"@ + param_parts(code).1)[i] == '%');
                assert((param_parts(code).0 + "%n"@ + param_parts(code).1)[i + 1] == 'n');
            }
        },
        -219 => {
            lemma_param_format(code);
            reveal_strlit("%n");
            assert(has_placeholder(param_parts(code).0 + "%n"@ + param_parts(code).1)) by {
                let i = param_parts(code).0.len() as int;
                assert((param_parts(code).0 + "%n"@ + param_parts(code).1)[i] == '%');
                assert((param_parts(code).0 + "%n"@ + param_parts(code).1)[i + 1] == 'n');
            }
        },
        -220 => {
            lemma_param_format(code);
            reveal_strlit("%n");
            assert(has_placeholder(param_parts(code).0 + "%n"@ + param_parts(code).1)) by {
                let i = param_parts(code).0.len() as int;
                assert((param_parts(code).0 + "%n"@ + param_parts(code).1)[i] == '%');
                assert((param_parts(code).0 + "%n"@ + param_parts(code).1)[i + 1] == 'n');
            }
        },
        -221 => {
            reveal_strlit("never ending recursion");
        },
        -222 => {
            reveal_strlit("group number is too big for capture history");
        },
        -223 => {
            lemma_param_format(code);
            reveal_strlit("%n");
            assert(has_placeholder(param_parts(code).0 + "%n"@ + param_parts(code).1)) by {
                let i = param_parts(code).0.len() as int;
                assert((param_parts(code).0 + "%n"@ + param_parts(code).1)[i] == '%');
                assert((param_parts(code).0 + "%n"@ + param_parts(code).1)[i + 1] == 'n');
            }
        },
        -224 => {
            reveal_strlit("invalid if-else syntax");
        },
        -225 => {
            reveal_strlit("invalid absent group pattern");
        },
        -226 => {
            reveal_strlit("invalid absent group generator pattern");
        },
        -227 => {
            reveal_strlit("invalid callout pattern");
        },
        -228 => {
            reveal_strlit("invalid callout name");
        },
        -229 => {
            reveal_strlit("undefined callout name");
        },
        -230 => {
            reveal_strlit("invalid callout body");
        },
        -231 => {
            reveal_strlit("invalid callout tag name");
        },
        -232 => {
            reveal_strlit("invalid callout arg");
        },
        -402 => {
            reveal_strlit("not supported encoding combination");
        },
        -403 => {
            reveal_strlit("invalid combination of options");
        },
        -406 => {
            reveal_strlit("very inefficient pattern");
        },
        -500 => {
            reveal_strlit("library is not initialized");
        },
        _ => {
            reveal_strlit("undefined error code");
        },
    }
}

/// The lower-case hexadecimal digit of `n` (0 to 15).
pub open spec fn hex_digit(n: u8) -> char {
    if n < 10 { (0x30 + n) as char } else { (0x57 + n) as char }
}

/// How a byte of a name shows in a message: printable ASCII (0x20 to 0x7e) as
/// itself, any other byte as `\xhh`.
pub open spec fn escape_byte(b: u8) -> Seq<char> {
    if 0x20 <= b <= 0x7e {
        seq![b as char]
    } else {
        seq!['\\', 'x', hex_digit(b >> 4u8), hex_digit(b & 0xf)]
    }
}

/// How a name shows in a message: each byte escaped by `escape_byte`.
pub open spec fn escape_param(par: Seq<u8>) -> Seq<char>
    decreases par.len(),
{
    if par.len() == 0 {
        Seq::empty()
    } else {
        escape_param(par.drop_last()) + escape_byte(par.last())
    }
}

/// The message of `code` with `param` in place of the name.
pub open spec fn error_message(code: i32, param: Option<Seq<u8>>) -> Seq<char> {
    if needs_param(code) {
        match param {
            Some(p) => param_parts(code).0 + escape_param(p) + param_parts(code).1,
            None => param_parts(code).0 + param_parts(code).1,
        }
    } else {
        error_format(code)
    }
}

/// The message of `code` where no name is known: the placeholder and its brackets dropped.
pub open spec fn error_message_without_param(code: i32) -> Seq<char> {
    if needs_param(code) {
        param_parts(code).2
    } else {
        error_format(code)
    }
}

/// Appends `c` to `s`: a call of `String::push`, which std documents as
/// appending the character to the end of the string.
#[verifier::external_body]
pub(crate) fn string_push(s: &mut String, c: char)
    ensures
        final(s)@ == old(s)@.push(c),
{
    s.push(c)
}

fn hex_digit_of(n: u8) -> (r: char)
    requires
        n < 16,
    ensures
        r == hex_digit(n),
{
    if n < 10 {
        (0x30 + n) as char
    } else {
        (0x57 + n) as char
    }
}

/// Appends the escaped form of `par` to `out`.
fn push_escaped(out: &mut String, par: &[u8])
    ensures
        final(out)@ == old(out)@ + escape_param(par@),
{
    let mut i: usize = 0;
    while i < par.len()
        invariant
            i <= par@.len(),
            out@ == old(out)@ + escape_param(par@.subrange(0, i as int)),
        decreases par@.len() - i,
    {
        let b = par[i];
        let ghost before = out@;
        if b >= 0x20 && b <= 0x7e {
            string_push(out, b as char);
        } else {
            string_push(out, '\\');
            string_push(out, 'x');
            assert(b >> 4u8 < 16) by (bit_vector);
            assert(b & 0xfu8 < 16) by (bit_vector);
            string_push(out, hex_digit_of(b >> 4));
            string_push(out, hex_digit_of(b & 0xf));
        }
        proof {
            let pre = par@.subrange(0, i as int);
            let next = par@.subrange(0, i + 1);
            assert(next.drop_last() =~= pre);
            assert(next.last() == b);
            assert(out@ =~= before + escape_byte(b));
        }
        i = i + 1;
    }
    assert(par@.subrange(0, par@.len() as int) =~= par@);
}

/// The message of an error code. A code whose message names a group or
/// property gets the name (escaped by `escape_param`) in place of `%n`, or
/// nothing there when no name is given.
pub fn onig_error_code_to_str(code: i32, param: Option<&[u8]>) -> (r: String)
    ensures
        r@ == error_message(code, match param {
            Some(p) => Some(p@),
            None => None,
        }),
{
    if onig_is_error_code_needs_param(code) {
        let parts = param_parts_of(code);
        let mut out = String::from_str(parts.0);
        match param {
            Some(par) => push_escaped(&mut out, par),
            None => {},
        }
        out.append(parts.1);
        out
    } else {
        String::from_str(onig_error_code_to_format(code))
    }
}

/// The message of an error code where no name is known: the placeholder and
/// its brackets are dropped.
pub fn onig_error_code_to_str_without_param(code: i32) -> (r: String)
    ensures
        r@ == error_message_without_param(code),
{
    if onig_is_error_code_needs_param(code) {
        let parts = param_parts_of(code);
        String::from_str(parts.2)
    } else {
        String::from_str(onig_error_code_to_format(code))
    }
}

} // verus!
