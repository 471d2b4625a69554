//! The text of an error report.
//!
//! An error is reported on one line, which reads
//! `Error in <file> at <line>:<col>: <message>`, or `at eof` where no token
//! is to blame. A line `Help: <help>` follows where there is help.

use vstd::prelude::*;
use crate::assembler::lexer::{Token, TokenKind, TokenView};
use crate::assembler::parser::{
    NumberError, ParseError, ParseErrorKind, ParseErrorKindView, ParseErrorView,
};
use crate::text::{decimal_text, push_bytes, push_decimal, push_text, text};

verus! {

/// How a kind of token is called in a report.
pub open spec fn kind_text(kind: TokenKind) -> Seq<u8> {
    match kind {
        TokenKind::Newline => text("'\\n'"),
        TokenKind::Colon => text("':'"),
        TokenKind::LabelIdentifier => text("label identifier"),
        TokenKind::Instruction { .. } => text("instruction"),
        TokenKind::NumberLiteral { .. } => text("number literal"),
        TokenKind::RegisterLiteral { .. } => text("register literal"),
    }
}

/// Why a text is no number, in words.
pub open spec fn cause_text(cause: NumberError) -> Seq<u8> {
    match cause {
        NumberError::Empty => text("cannot parse integer from empty string"),
        NumberError::InvalidDigit => text("invalid digit found in string"),
        NumberError::PosOverflow => text("number too large to fit in target type"),
    }
}

/// The first `n` of a list of kinds, separated by `, `.
pub open spec fn kinds_text(kinds: Seq<TokenKind>, n: nat) -> Seq<u8>
    decreases n,
{
    if n == 0 {
        Seq::empty()
    } else if n == 1 {
        kind_text(kinds[0])
    } else {
        kinds_text(kinds, (n - 1) as nat) + text(", ") + kind_text(kinds[n - 1])
    }
}

/// Where an error arose: the line and the column of its token, or `eof`.
pub open spec fn location_text(token: Option<TokenView>) -> Seq<u8> {
    match token {
        Some(token) => decimal_text(token.location.line as nat) + text(":") + decimal_text(
            token.location.col as nat,
        ),
        None => text("eof"),
    }
}

/// The text of a token in quotes, unless the token is a line feed or a `:`.
pub open spec fn quoted_text(token: TokenView) -> Seq<u8> {
    if token.kind != TokenKind::Newline && token.kind != TokenKind::Colon {
        text("'") + token.text + text("'")
    } else {
        Seq::empty()
    }
}

/// The message that `token` is none of the kinds that were expected.
pub open spec fn unexpected_text(expected_types: Seq<TokenKind>, token: TokenView) -> Seq<u8> {
    text("Expected one of ") + kinds_text(expected_types, expected_types.len()) + text(
        " but found ",
    ) + kind_text(token.kind) + text(" ") + quoted_text(token)
}

/// The message that the text ended where one of some kinds was expected.
pub open spec fn unexpected_end_text(expected_types: Seq<TokenKind>) -> Seq<u8> {
    text("Expected one of ") + kinds_text(expected_types, expected_types.len()) + text(
        " but found eof",
    )
}

/// The message that `token` is no number.
pub open spec fn invalid_number_text(token: TokenView, cause: NumberError) -> Seq<u8> {
    text("Invalid number literal '") + token.text + text("'. Cause: ") + cause_text(cause)
}

/// What went wrong, in words.
pub open spec fn message_text(error: ParseErrorView) -> Seq<u8> {
    match (error.kind, error.token) {
        (ParseErrorKindView::UnexpectedToken { expected_types }, Some(token)) => unexpected_text(
            expected_types,
            token,
        ),
        (ParseErrorKindView::UnexpectedToken { expected_types }, None) => unexpected_end_text(
            expected_types,
        ),
        (ParseErrorKindView::InvalidNumberLiteral { cause }, Some(token)) => invalid_number_text(
            token,
            cause,
        ),
        _ => text("Unknown error"),
    }
}

/// The report of an error in the file `file`.
pub open spec fn report_text(file: Seq<u8>, error: ParseErrorView) -> Seq<u8> {
    text("Error in ") + file + text(" at ") + location_text(error.token) + text(": ")
        + message_text(error) + text("\n") + (match error.help {
        Some(help) => text("Help: ") + vstd::utf8::encode_utf8(help) + text("\n"),
        None => Seq::empty(),
    })
}

/// How a kind of token is called in a report.
pub fn kind_name(kind: TokenKind) -> (r: &'static str)
    ensures
        text(r) == kind_text(kind),
{
    match kind {
        TokenKind::Newline => "'\\n'",
        TokenKind::Colon => "':'",
        TokenKind::LabelIdentifier => "label identifier",
        TokenKind::Instruction { .. } => "instruction",
        TokenKind::NumberLiteral { .. } => "number literal",
        TokenKind::RegisterLiteral { .. } => "register literal",
    }
}

/// Why a text is no number, in words.
pub fn cause_name(cause: NumberError) -> (r: &'static str)
    ensures
        text(r) == cause_text(cause),
{
    match cause {
        NumberError::Empty => "cannot parse integer from empty string",
        NumberError::InvalidDigit => "invalid digit found in string",
        NumberError::PosOverflow => "number too large to fit in target type",
    }
}

/// Appends a list of kinds, separated by `, `.
fn push_kinds(out: &mut Vec<u8>, kinds: &Vec<TokenKind>)
    ensures
        final(out)@ == old(out)@ + kinds_text(kinds@, kinds@.len()),
{
    let mut i: usize = 0;
    proof {
        assert(out@ =~= old(out)@ + kinds_text(kinds@, 0));
    }
    while i < kinds.len()
        invariant
            i <= kinds@.len(),
            out@ == old(out)@ + kinds_text(kinds@, i as nat),
        decreases kinds@.len() - i,
    {
        if i > 0 {
            push_text(out, ", ");
        }
        push_text(out, kind_name(kinds[i]));
        proof {
            assert(out@ =~= old(out)@ + kinds_text(kinds@, (i + 1) as nat));
        }
        i += 1;
    }
}

/// Appends where an error arose.
fn push_location(out: &mut Vec<u8>, token: &Option<Token>)
    ensures
        final(out)@ == old(out)@ + location_text(
            match *token {
                Some(token) => Some(token@),
                None => None,
            },
        ),
{
    match token {
        Some(token) => {
            push_decimal(out, token.location.line);
            push_text(out, ":");
            push_decimal(out, token.location.col);
            proof {
                assert(out@ =~= old(out)@ + location_text(Some(token@)));
            }
        },
        None => {
            push_text(out, "eof");
        },
    }
}

/// Appends the message that `token` is none of the kinds that were expected.
fn push_unexpected(out: &mut Vec<u8>, expected_types: &Vec<TokenKind>, token: &Token)
    ensures
        final(out)@ == old(out)@ + unexpected_text(expected_types@, token@),
{
    let ghost start = out@;
    push_text(out, "Expected one of ");
    push_kinds(out, expected_types);
    push_text(out, " but found ");
    push_text(out, kind_name(token.kind));
    push_text(out, " ");
    let ghost head = text("Expected one of ") + kinds_text(expected_types@, expected_types@.len())
        + text(" but found ") + kind_text(token.kind) + text(" ");
    proof {
        assert(out@ =~= start + head);
    }
    let plain = match token.kind {
        TokenKind::Newline => false,
        TokenKind::Colon => false,
        _ => true,
    };
    if plain {
        push_text(out, "'");
        push_bytes(out, token.text);
        push_text(out, "'");
    }
    proof {
        assert(out@ =~= start + head + quoted_text(token@));
        assert(start + head + quoted_text(token@) =~= start + (head + quoted_text(token@)));
    }
}

/// Appends the message that the text ended where one of some kinds was expected.
fn push_unexpected_end(out: &mut Vec<u8>, expected_types: &Vec<TokenKind>)
    ensures
        final(out)@ == old(out)@ + unexpected_end_text(expected_types@),
{
    push_text(out, "Expected one of ");
    push_kinds(out, expected_types);
    push_text(out, " but found eof");
    proof {
        assert(out@ =~= old(out)@ + unexpected_end_text(expected_types@));
    }
}

/// Appends the message that `token` is no number.
fn push_invalid_number(out: &mut Vec<u8>, token: &Token, cause: NumberError)
    ensures
        final(out)@ == old(out)@ + invalid_number_text(token@, cause),
{
    push_text(out, "Invalid number literal '");
    push_bytes(out, token.text);
    push_text(out, "'. Cause: ");
    push_text(out, cause_name(cause));
    proof {
        assert(out@ =~= old(out)@ + invalid_number_text(token@, cause));
    }
}

/// Appends what went wrong, in words.
fn push_message(out: &mut Vec<u8>, error: &ParseError)
    ensures
        final(out)@ == old(out)@ + message_text(error@),
{
    match &error.kind {
        ParseErrorKind::UnexpectedToken { expected_types } => match &error.token {
            Some(token) => push_unexpected(out, expected_types, token),
            None => push_unexpected_end(out, expected_types),
        },
        ParseErrorKind::InvalidNumberLiteral { cause } => match &error.token {
            Some(token) => push_invalid_number(out, token, *cause),
            None => push_text(out, "Unknown error"),
        },
        _ => push_text(out, "Unknown error"),
    }
}

/// The report of an error in the file `file`.
pub fn report_error(file: &[u8], error: &ParseError) -> (r: Vec<u8>)
    ensures
        r@ == report_text(file@, error@),
{
    let mut out: Vec<u8> = Vec::new();
    push_text(&mut out, "Error in ");
    push_bytes(&mut out, file);
    push_text(&mut out, " at ");
    push_location(&mut out, &error.token);
    push_text(&mut out, ": ");
    push_message(&mut out, error);
    push_text(&mut out, "\n");
    let ghost line = out@;
    match &error.help {
        Some(help) => {
            push_text(&mut out, "Help: ");
            push_text(&mut out, help.as_str());
            push_text(&mut out, "\n");
            proof {
                assert(out@ =~= line + (text("Help: ") + vstd::utf8::encode_utf8(help@) + text(
                    "\n",
                )));
            }
        },
        None => {},
    }
    proof {
        assert(line =~= text("Error in ") + file@ + text(" at ") + location_text(error@.token)
            + text(": ") + message_text(error@) + text("\n"));
    }
    out
}

} // verus!
