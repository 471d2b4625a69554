//! The parser: reads a list of tokens as labels and instructions.
//!
//! A program is a list of lines. A label followed by a `:` defines the
//! label. A mnemonic starts an instruction, whose operands are the tokens
//! up to the end of its line: numbers, registers and references to labels.

use vstd::prelude::*;
use vstd::slice::slice_subrange;
use crate::assembler::lexer::{
    InstructionKind, NumberLiteralKind, Register, Token, TokenKind, TokenView,
};

verus! {

/// A node of a parsed program.
#[derive(Debug)]
pub enum Node<'a> {
    Label { name: &'a [u8] },
    LabelReference { name: &'a [u8] },
    Instruction { kind: InstructionKind, arguments: Vec<Node<'a>> },
    RegisterLiteral { register: Register },
    NumberLiteral { value: u8 },
}

/// What a node holds.
pub ghost enum NodeView {
    Label { name: Seq<u8> },
    LabelReference { name: Seq<u8> },
    Instruction { kind: InstructionKind, arguments: Seq<NodeView> },
    RegisterLiteral { register: Register },
    NumberLiteral { value: u8 },
}

impl<'a> Node<'a> {
    /// What the node holds.
    pub open spec fn view(self) -> NodeView
        decreases self,
    {
        match self {
            Node::Label { name } => NodeView::Label { name: name@ },
            Node::LabelReference { name } => NodeView::LabelReference { name: name@ },
            Node::Instruction { kind, arguments } => NodeView::Instruction {
                kind,
                arguments: Seq::new(
                    arguments@.len(),
                    |i: int|
                        if 0 <= i < arguments@.len() {
                            arguments@[i].view()
                        } else {
                            NodeView::NumberLiteral { value: 0 }
                        },
                ),
            },
            Node::RegisterLiteral { register } => NodeView::RegisterLiteral { register },
            Node::NumberLiteral { value } => NodeView::NumberLiteral { value },
        }
    }
}

/// What a list of nodes holds.
pub open spec fn nodes_view(nodes: Seq<Node>) -> Seq<NodeView> {
    Seq::new(nodes.len(), |i: int| nodes[i].view())
}

/// Why a text is no number.
#[derive(Debug, Clone, Copy, PartialEq, Eq)]
pub enum NumberError {
    /// The text holds no digit.
    Empty,
    /// The text holds a byte that is no digit of the radix.
    InvalidDigit,
    /// The number does not fit into a byte.
    PosOverflow,
}

/// What went wrong with a token.
#[derive(Debug)]
pub enum ParseErrorKind {
    InvalidNumberLiteral { cause: NumberError },
    UnknownInstruction,
    UnknownRegister,
    UnexpectedToken { expected_types: Vec<TokenKind> },
}

/// An error: the token at which it arose, if there was one, and what went wrong.
#[derive(Debug)]
pub struct ParseError<'a> {
    pub token: Option<Token<'a>>,
    pub kind: ParseErrorKind,
    pub help: Option<String>,
}

/// What a `ParseErrorKind` holds.
pub ghost enum ParseErrorKindView {
    InvalidNumberLiteral { cause: NumberError },
    UnknownInstruction,
    UnknownRegister,
    UnexpectedToken { expected_types: Seq<TokenKind> },
}

/// What a `ParseError` holds.
pub ghost struct ParseErrorView {
    pub token: Option<TokenView>,
    pub kind: ParseErrorKindView,
    pub help: Option<Seq<char>>,
}

impl View for ParseErrorKind {
    type V = ParseErrorKindView;

    open spec fn view(&self) -> ParseErrorKindView {
        match *self {
            ParseErrorKind::InvalidNumberLiteral { cause } => ParseErrorKindView::InvalidNumberLiteral {
                cause,
            },
            ParseErrorKind::UnknownInstruction => ParseErrorKindView::UnknownInstruction,
            ParseErrorKind::UnknownRegister => ParseErrorKindView::UnknownRegister,
            ParseErrorKind::UnexpectedToken { expected_types } => ParseErrorKindView::UnexpectedToken {
                expected_types: expected_types@,
            },
        }
    }
}

impl<'a> View for ParseError<'a> {
    type V = ParseErrorView;

    open spec fn view(&self) -> ParseErrorView {
        ParseErrorView {
            token: match self.token {
                Some(token) => Some(token@),
                None => None,
            },
            kind: self.kind@,
            help: match self.help {
                Some(help) => Some(help@),
                None => None,
            },
        }
    }
}

/// The value of a digit: `0` to `9` are 0 to 9, and the letters, in either
/// case, are 10 to 35.
pub open spec fn digit_value(c: u8) -> Option<nat> {
    if 0x30 <= c <= 0x39 {
        Some((c - 0x30) as nat)
    } else if 0x61 <= c <= 0x7A {
        Some((c - 0x61 + 10) as nat)
    } else if 0x41 <= c <= 0x5A {
        Some((c - 0x41 + 10) as nat)
    } else {
        None
    }
}

/// The number that a run of digits stands for in a radix, read from the
/// left. The first byte that is no digit of the radix, or the first digit
/// with which the number no longer fits into a byte, ends the reading.
pub open spec fn digits_value(digits: Seq<u8>, radix: nat) -> Result<nat, NumberError>
    decreases digits.len(),
{
    if digits.len() == 0 {
        Ok(0)
    } else {
        match digits_value(digits.drop_last(), radix) {
            Err(e) => Err(e),
            Ok(before) => match digit_value(digits.last()) {
                Some(d) => if d >= radix {
                    Err(NumberError::InvalidDigit)
                } else if before * radix + d > u8::MAX {
                    Err(NumberError::PosOverflow)
                } else {
                    Ok(before * radix + d)
                },
                None => Err(NumberError::InvalidDigit),
            },
        }
    }
}

/// The byte that a text stands for in a radix. A `+` may stand before the
/// digits. A text without bytes is empty, and a text without digits holds
/// an invalid digit.
pub open spec fn radix_value(word: Seq<u8>, radix: nat) -> Result<u8, NumberError> {
    if word.len() == 0 {
        Err(NumberError::Empty)
    } else {
        let digits = if word[0] == 0x2B {
            word.drop_first()
        } else {
            word
        };
        if digits.len() == 0 {
            Err(NumberError::InvalidDigit)
        } else {
            match digits_value(digits, radix) {
                Ok(v) => Ok(v as u8),
                Err(e) => Err(e),
            }
        }
    }
}

/// A text without its first two bytes.
pub open spec fn after_prefix(word: Seq<u8>) -> Seq<u8> {
    if word.len() >= 2 {
        word.subrange(2, word.len() as int)
    } else {
        Seq::empty()
    }
}

/// The byte that a number stands for: in decimal, or in hexadecimal or
/// binary after a prefix of two bytes.
pub open spec fn number_value(kind: NumberLiteralKind, word: Seq<u8>) -> Result<u8, NumberError> {
    match kind {
        NumberLiteralKind::Decimal => radix_value(word, 10),
        NumberLiteralKind::Hex => radix_value(after_prefix(word), 16),
        NumberLiteralKind::Binary => radix_value(after_prefix(word), 2),
    }
}

/// The error that a token is not one of the kinds that were expected.
pub open spec fn unexpected(token: Option<TokenView>, expected_types: Seq<TokenKind>) -> ParseErrorView {
    ParseErrorView {
        token,
        kind: ParseErrorKindView::UnexpectedToken { expected_types },
        help: None,
    }
}

/// The kinds of the three ways to write a number.
pub open spec fn number_kinds() -> Seq<TokenKind> {
    seq![
        TokenKind::NumberLiteral { kind: NumberLiteralKind::Binary },
        TokenKind::NumberLiteral { kind: NumberLiteralKind::Decimal },
        TokenKind::NumberLiteral { kind: NumberLiteralKind::Hex },
    ]
}

/// A token read as a number.
pub open spec fn number_literal_of(token: TokenView) -> Result<NodeView, ParseErrorView> {
    match token.kind {
        TokenKind::NumberLiteral { kind } => match number_value(kind, token.text) {
            Ok(value) => Ok(NodeView::NumberLiteral { value }),
            Err(cause) => Err(
                ParseErrorView {
                    token: Some(token),
                    kind: ParseErrorKindView::InvalidNumberLiteral { cause },
                    help: None,
                },
            ),
        },
        _ => Err(unexpected(Some(token), number_kinds())),
    }
}

/// A token read as a register. A word that names no register is an
/// unknown register.
pub open spec fn register_literal_of(token: TokenView) -> Result<NodeView, ParseErrorView> {
    match token.kind {
        TokenKind::RegisterLiteral { register } => Ok(NodeView::RegisterLiteral { register }),
        TokenKind::LabelIdentifier | TokenKind::Instruction { .. } => Err(
            ParseErrorView {
                token: Some(token),
                kind: ParseErrorKindView::UnknownRegister,
                help: None,
            },
        ),
        _ => Err(unexpected(Some(token), seq![TokenKind::LabelIdentifier])),
    }
}

/// A token read as a reference to a label: any word is one.
pub open spec fn label_reference_of(token: TokenView) -> Result<NodeView, ParseErrorView> {
    match token.kind {
        TokenKind::LabelIdentifier
        | TokenKind::Instruction { .. }
        | TokenKind::RegisterLiteral { .. } => Ok(NodeView::LabelReference { name: token.text }),
        _ => Err(unexpected(Some(token), seq![TokenKind::LabelIdentifier])),
    }
}

/// A token read as an operand: a number, else a register, else a reference
/// to a label. A number that cannot be read is an error at once.
pub open spec fn argument_of(token: TokenView) -> Result<NodeView, ParseErrorView> {
    match number_literal_of(token) {
        Ok(node) => Ok(node),
        Err(e) => if e.kind is InvalidNumberLiteral {
            Err(e)
        } else {
            match register_literal_of(token) {
                Ok(node) => Ok(node),
                Err(_) => match label_reference_of(token) {
                    Ok(node) => Ok(node),
                    Err(_) => Err(
                        unexpected(Some(token), number_kinds().push(TokenKind::LabelIdentifier)),
                    ),
                },
            }
        },
    }
}

/// The operands from index `at` up to the end of the line, after the
/// operands `arguments`, and the index after them.
pub open spec fn arguments_run(tokens: Seq<TokenView>, at: int, arguments: Seq<NodeView>) -> (
    Result<Seq<NodeView>, ParseErrorView>,
    int,
)
    decreases tokens.len() - at,
{
    if at < 0 || at >= tokens.len() {
        (Ok(arguments), at)
    } else if tokens[at].kind is Newline {
        (Ok(arguments), at + 1)
    } else {
        match argument_of(tokens[at]) {
            Ok(node) => arguments_run(tokens, at + 1, arguments.push(node)),
            Err(e) => (Err(e), at + 1),
        }
    }
}

/// The token at index `at`, if there is one.
pub open spec fn token_at(tokens: Seq<TokenView>, at: int) -> Option<TokenView> {
    if 0 <= at < tokens.len() {
        Some(tokens[at])
    } else {
        None
    }
}

/// The instruction that starts at index `at`, and the index after it. A
/// word that is no mnemonic is an unknown instruction.
pub open spec fn instruction_at(tokens: Seq<TokenView>, at: int) -> (
    Result<NodeView, ParseErrorView>,
    int,
) {
    match token_at(tokens, at) {
        None => (Err(unexpected(None, seq![TokenKind::LabelIdentifier])), at),
        Some(token) => match token.kind {
            TokenKind::Instruction { kind } => {
                let (arguments, end) = arguments_run(tokens, at + 1, Seq::empty());
                match arguments {
                    Ok(arguments) => (Ok(NodeView::Instruction { kind, arguments }), end),
                    Err(e) => (Err(e), end),
                }
            },
            TokenKind::LabelIdentifier | TokenKind::RegisterLiteral { .. } => (
                Err(
                    ParseErrorView {
                        token: Some(token),
                        kind: ParseErrorKindView::UnknownInstruction,
                        help: None,
                    },
                ),
                at + 1,
            ),
            _ => (Err(unexpected(Some(token), seq![TokenKind::LabelIdentifier])), at + 1),
        },
    }
}

/// The definition of a label at index `at`: a label followed by a `:`.
pub open spec fn label_at(tokens: Seq<TokenView>, at: int) -> Result<NodeView, ParseErrorView> {
    match token_at(tokens, at) {
        Some(first) => if first.kind is LabelIdentifier {
            match token_at(tokens, at + 1) {
                Some(second) => if second.kind is Colon {
                    Ok(NodeView::Label { name: first.text })
                } else {
                    Err(unexpected(Some(second), seq![TokenKind::Colon]))
                },
                None => Err(unexpected(None, seq![TokenKind::Colon])),
            }
        } else {
            Err(unexpected(Some(first), seq![TokenKind::LabelIdentifier]))
        },
        None => Err(unexpected(None, seq![TokenKind::LabelIdentifier])),
    }
}

/// The program from index `at` on, after the nodes `done`: empty lines are
/// passed over, a label followed by a `:` is a definition, and anything
/// else is an instruction. The first error ends the reading.
pub open spec fn program_run(tokens: Seq<TokenView>, at: int, done: Seq<NodeView>) -> Result<
    Seq<NodeView>,
    ParseErrorView,
>
    decreases tokens.len() - at,
{
    if at < 0 || at >= tokens.len() {
        Ok(done)
    } else if tokens[at].kind is Newline {
        program_run(tokens, at + 1, done)
    } else {
        match label_at(tokens, at) {
            Ok(label) => program_run(tokens, at + 2, done.push(label)),
            Err(_) => match instruction_at(tokens, at) {
                (Err(e), _) => Err(e),
                (Ok(node), end) => if at < end <= tokens.len() {
                    program_run(tokens, end, done.push(node))
                } else {
                    Ok(done.push(node))
                },
            },
        }
    }
}

/// What a list of tokens holds.
pub open spec fn tokens_view(tokens: Seq<Token>) -> Seq<TokenView> {
    Seq::new(tokens.len(), |i: int| tokens[i]@)
}

/// The operands of a line end at an index after the one at which they
/// start, and within the tokens.
pub proof fn lemma_arguments_run_end(tokens: Seq<TokenView>, at: int, arguments: Seq<NodeView>)
    requires
        0 <= at <= tokens.len(),
    ensures
        at <= arguments_run(tokens, at, arguments).1 <= tokens.len(),
    decreases tokens.len() - at,
{
    if at < tokens.len() && !(tokens[at].kind is Newline) {
        match argument_of(tokens[at]) {
            Ok(node) => lemma_arguments_run_end(tokens, at + 1, arguments.push(node)),
            Err(_) => {},
        }
    }
}

/// The value of a digit of `radix`, if `c` is one.
pub fn to_digit(c: u8, radix: u8) -> (r: Option<u8>)
    requires
        2 <= radix <= 36,
    ensures
        match digit_value(c) {
            Some(d) => if d < radix {
                r == Some(d as u8)
            } else {
                r.is_none()
            },
            None => r.is_none(),
        },
{
    let d: u8 = if 0x30 <= c && c <= 0x39 {
        c - 0x30
    } else if 0x61 <= c && c <= 0x7A {
        c - 0x61 + 10
    } else if 0x41 <= c && c <= 0x5A {
        c - 0x41 + 10
    } else {
        return None;
    };
    if d < radix {
        Some(d)
    } else {
        None
    }
}

/// Reads a text as a byte in a radix between 2 and 36.
pub fn parse_radix(word: &[u8], radix: u8) -> (r: Result<u8, NumberError>)
    requires
        2 <= radix <= 36,
    ensures
        r == radix_value(word@, radix as nat),
{
    if word.len() == 0 {
        return Err(NumberError::Empty);
    }
    let first: usize = if word[0] == 0x2B {
        1
    } else {
        0
    };
    if first == word.len() {
        return Err(NumberError::InvalidDigit);
    }
    let ghost digits = if word@[0] == 0x2B {
        word@.drop_first()
    } else {
        word@
    };
    let mut acc: u8 = 0;
    let mut i: usize = first;
    proof {
        assert(digits.take(0) =~= Seq::<u8>::empty());
    }
    while i < word.len()
        invariant
            first <= i <= word@.len(),
            2 <= radix <= 36,
            word@.len() > 0,
            digits.len() > 0,
            digits == (if word@[0] == 0x2B {
                word@.drop_first()
            } else {
                word@
            }),
            digits == word@.subrange(first as int, word@.len() as int),
            digits_value(digits.take(i - first), radix as nat) == Ok::<nat, NumberError>(acc as nat),
        decreases word@.len() - i,
    {
        proof {
            assert(digits.take(i - first + 1).drop_last() =~= digits.take(i - first));
            assert(digits.take(i - first + 1).last() == word@[i as int]);
        }
        match to_digit(word[i], radix) {
            None => {
                proof {
                    lemma_digits_error(digits, i - first + 1, radix as nat);
                }
                return Err(NumberError::InvalidDigit);
            },
            Some(d) => {
                assert(acc * radix <= 255 * 36) by (nonlinear_arith)
                    requires
                        acc <= 255,
                        radix <= 36,
                ;
                let next: u16 = acc as u16 * radix as u16 + d as u16;
                if next > 255 {
                    proof {
                        lemma_digits_error(digits, i - first + 1, radix as nat);
                    }
                    return Err(NumberError::PosOverflow);
                }
                acc = next as u8;
            },
        }
        i += 1;
    }
    proof {
        assert(digits.take(i - first) =~= digits);
    }
    Ok(acc)
}

/// An error in a prefix of a run of digits is the error of the whole run.
proof fn lemma_digits_error(digits: Seq<u8>, n: int, radix: nat)
    requires
        0 <= n <= digits.len(),
        digits_value(digits.take(n), radix) is Err,
    ensures
        digits_value(digits, radix) == digits_value(digits.take(n), radix),
    decreases digits.len() - n,
{
    if n < digits.len() {
        assert(digits.take(n + 1).drop_last() =~= digits.take(n));
        lemma_digits_error(digits, n + 1, radix);
    } else {
        assert(digits.take(n) =~= digits);
    }
}

/// The error that a token is not one of the kinds that were expected.
pub fn unexpected_token<'a>(maybe_token: Option<Token<'a>>, expected_types: Vec<TokenKind>) -> (r:
    ParseError<'a>)
    ensures
        r@ == unexpected(
            match maybe_token {
                Some(token) => Some(token@),
                None => None,
            },
            expected_types@,
        ),
{
    ParseError {
        token: maybe_token,
        kind: ParseErrorKind::UnexpectedToken { expected_types },
        help: None,
    }
}

/// Reads a token as a number.
pub fn parse_number_literal<'a>(next: &Token<'a>) -> (r: Result<Node<'a>, ParseError<'a>>)
    ensures
        match number_literal_of(next@) {
            Ok(node) => r is Ok && r->Ok_0.view() == node,
            Err(e) => r is Err && r->Err_0@ == e,
        },
{
    let kind = match next.kind {
        TokenKind::NumberLiteral { kind } => kind,
        _ => {
            let expected = vec![
                TokenKind::NumberLiteral { kind: NumberLiteralKind::Binary },
                TokenKind::NumberLiteral { kind: NumberLiteralKind::Decimal },
                TokenKind::NumberLiteral { kind: NumberLiteralKind::Hex },
            ];
            proof {
                assert(expected@ =~= number_kinds());
            }
            return Err(unexpected_token(Some(*next), expected));
        },
    };
    let digits: &[u8] = if next.text.len() >= 2 {
        slice_subrange(next.text, 2, next.text.len())
    } else {
        slice_subrange(next.text, 0, 0)
    };
    proof {
        assert(digits@ =~= after_prefix(next.text@));
    }
    let value = match kind {
        NumberLiteralKind::Decimal => parse_radix(next.text, 10),
        NumberLiteralKind::Hex => parse_radix(digits, 16),
        NumberLiteralKind::Binary => parse_radix(digits, 2),
    };
    match value {
        Ok(value) => Ok(Node::NumberLiteral { value }),
        Err(err) => Err(
            ParseError {
                token: Some(*next),
                kind: ParseErrorKind::InvalidNumberLiteral { cause: err },
                help: None,
            },
        ),
    }
}

/// Reads a token as a register.
pub fn parse_register_literal<'a>(next: &Token<'a>) -> (r: Result<Node<'a>, ParseError<'a>>)
    ensures
        match register_literal_of(next@) {
            Ok(node) => r is Ok && r->Ok_0.view() == node,
            Err(e) => r is Err && r->Err_0@ == e,
        },
{
    match next.kind {
        TokenKind::RegisterLiteral { register } => Ok(Node::RegisterLiteral { register }),
        TokenKind::LabelIdentifier | TokenKind::Instruction { .. } => Err(
            ParseError { token: Some(*next), kind: ParseErrorKind::UnknownRegister, help: None },
        ),
        _ => {
            let expected = vec![TokenKind::LabelIdentifier];
            proof {
                assert(expected@ =~= seq![TokenKind::LabelIdentifier]);
            }
            Err(unexpected_token(Some(*next), expected))
        },
    }
}

/// Reads a token as a reference to a label.
pub fn parse_label_reference<'a>(next: &Token<'a>) -> (r: Result<Node<'a>, ParseError<'a>>)
    ensures
        match label_reference_of(next@) {
            Ok(node) => r is Ok && r->Ok_0.view() == node,
            Err(e) => r is Err && r->Err_0@ == e,
        },
{
    match next.kind {
        TokenKind::LabelIdentifier
        | TokenKind::Instruction { .. }
        | TokenKind::RegisterLiteral { .. } => Ok(Node::LabelReference { name: next.text }),
        _ => {
            let expected = vec![TokenKind::LabelIdentifier];
            proof {
                assert(expected@ =~= seq![TokenKind::LabelIdentifier]);
            }
            Err(unexpected_token(Some(*next), expected))
        },
    }
}

/// A parser over a list of tokens.
pub struct Parser<'a> {
    input_tokens: &'a [Token<'a>],
    position: usize,
}

impl<'a> Parser<'a> {
    #[verifier::type_invariant]
    spec fn well_formed(self) -> bool {
        self.position <= self.input_tokens@.len()
    }

    /// The tokens that the parser reads.
    pub closed spec fn tokens(self) -> Seq<TokenView> {
        tokens_view(self.input_tokens@)
    }

    /// The index of the token at which the parser stands.
    pub closed spec fn position(self) -> int {
        self.position as int
    }

    /// A parser at the first of `tokens`.
    pub fn new(tokens: &'a [Token<'a>]) -> (r: Self)
        ensures
            r.tokens() == tokens_view(tokens@),
            r.position() == 0,
    {
        Parser { input_tokens: tokens, position: 0 }
    }

    /// Reads the tokens that are left as a program: the nodes of its labels
    /// and instructions, in order, or the first error.
    pub fn parse(&mut self) -> (r: Result<Vec<Node<'a>>, ParseError<'a>>)
        ensures
            final(self).tokens() == old(self).tokens(),
            match program_run(old(self).tokens(), old(self).position(), Seq::empty()) {
                Ok(nodes) => r is Ok && nodes_view(r->Ok_0@) == nodes,
                Err(e) => r is Err && r->Err_0@ == e,
            },
    {
        let mut program: Vec<Node<'a>> = Vec::new();
        let ghost tokens = self.tokens();
        proof {
            assert(nodes_view(program@) =~= Seq::<NodeView>::empty());
        }
        loop
            invariant
                self.input_tokens == old(self).input_tokens,
                tokens == tokens_view(self.input_tokens@),
                program_run(tokens, old(self).position as int, Seq::empty()) == program_run(
                    tokens,
                    self.position as int,
                    nodes_view(program@),
                ),
            ensures
                program_run(tokens, old(self).position as int, Seq::empty()) == Ok::<
                    Seq<NodeView>,
                    ParseErrorView,
                >(nodes_view(program@)),
            decreases self.input_tokens@.len() - self.position,
        {
            proof {
                use_type_invariant(&*self);
            }
            if self.position >= self.input_tokens.len() {
                break ;
            }
            if self.skip_optional_newline() {
                continue ;
            }
            let ghost before = nodes_view(program@);
            match self.parse_label() {
                Ok(n) => {
                    program.push(n);
                    proof {
                        assert(nodes_view(program@) =~= before.push(n.view()));
                    }
                    continue ;
                },
                Err(_) => {},
            }
            let ghost at = self.position as int;
            proof {
                lemma_arguments_run_end(tokens, at + 1, Seq::empty());
            }
            match self.parse_instruction() {
                Ok(n) => {
                    program.push(n);
                    proof {
                        assert(nodes_view(program@) =~= before.push(n.view()));
                    }
                },
                Err(err) => {
                    return Err(err);
                },
            }
        }
        Ok(program)
    }

    /// Reads the definition of a label: a label followed by a `:`. Where
    /// there is none, the parser stays where it stands.
    fn parse_label(&mut self) -> (r: Result<Node<'a>, ParseError<'a>>)
        ensures
            final(self).input_tokens == old(self).input_tokens,
            match label_at(tokens_view(old(self).input_tokens@), old(self).position as int) {
                Ok(node) => r is Ok && r->Ok_0.view() == node && final(self).position == old(self).position + 2,
                Err(e) => r is Err && r->Err_0@ == e && final(self).position == old(self).position,
            },
    {
        proof {
            use_type_invariant(&*self);
        }
        let length = self.input_tokens.len();
        if self.position >= length {
            let expected = vec![TokenKind::LabelIdentifier];
            proof {
                assert(expected@ =~= seq![TokenKind::LabelIdentifier]);
            }
            return Err(unexpected_token(None, expected));
        }
        let first = self.input_tokens[self.position];
        proof {
            assert(tokens_view(self.input_tokens@)[self.position as int] == first@);
        }
        let name = match first.kind {
            TokenKind::LabelIdentifier => first.text,
            _ => {
                let expected = vec![TokenKind::LabelIdentifier];
                proof {
                    assert(expected@ =~= seq![TokenKind::LabelIdentifier]);
                }
                return Err(unexpected_token(Some(first), expected));
            },
        };
        if self.position + 1 >= length {
            let expected = vec![TokenKind::Colon];
            proof {
                assert(expected@ =~= seq![TokenKind::Colon]);
            }
            return Err(unexpected_token(None, expected));
        }
        let second = self.input_tokens[self.position + 1];
        proof {
            assert(tokens_view(self.input_tokens@)[self.position + 1] == second@);
        }
        match second.kind {
            TokenKind::Colon => {},
            _ => {
                let expected = vec![TokenKind::Colon];
                proof {
                    assert(expected@ =~= seq![TokenKind::Colon]);
                }
                return Err(unexpected_token(Some(second), expected));
            },
        }
        self.position = self.position + 2;
        Ok(Node::Label { name })
    }

    /// Reads an instruction: a mnemonic and its operands, up to the end of
    /// the line.
    fn parse_instruction(&mut self) -> (r: Result<Node<'a>, ParseError<'a>>)
        ensures
            final(self).input_tokens == old(self).input_tokens,
            match instruction_at(tokens_view(old(self).input_tokens@), old(self).position as int) {
                (Ok(node), end) => r is Ok && r->Ok_0.view() == node && final(self).position == end,
                (Err(e), end) => r is Err && r->Err_0@ == e && final(self).position == end,
            },
    {
        proof {
            use_type_invariant(&*self);
        }
        let ghost tokens = tokens_view(self.input_tokens@);
        if self.position >= self.input_tokens.len() {
            let expected = vec![TokenKind::LabelIdentifier];
            proof {
                assert(expected@ =~= seq![TokenKind::LabelIdentifier]);
            }
            return Err(unexpected_token(None, expected));
        }
        let first = self.input_tokens[self.position];
        proof {
            assert(tokens[self.position as int] == first@);
        }
        self.position = self.position + 1;
        let instruction_kind = match first.kind {
            TokenKind::Instruction { kind } => kind,
            TokenKind::LabelIdentifier | TokenKind::RegisterLiteral { .. } => {
                return Err(
                    ParseError {
                        token: Some(first),
                        kind: ParseErrorKind::UnknownInstruction,
                        help: None,
                    },
                );
            },
            _ => {
                let expected = vec![TokenKind::LabelIdentifier];
                proof {
                    assert(expected@ =~= seq![TokenKind::LabelIdentifier]);
                }
                return Err(unexpected_token(Some(first), expected));
            },
        };
        let mut args: Vec<Node<'a>> = Vec::new();
        let ghost start = self.position as int;
        proof {
            assert(nodes_view(args@) =~= Seq::<NodeView>::empty());
        }
        loop
            invariant_except_break
                arguments_run(tokens, start, Seq::empty()) == arguments_run(
                    tokens,
                    self.position as int,
                    nodes_view(args@),
                ),
            invariant
                self.input_tokens == old(self).input_tokens,
                tokens == tokens_view(self.input_tokens@),
                self.position <= self.input_tokens@.len(),
                start == old(self).position + 1,
                old(self).position < self.input_tokens@.len(),
                tokens[old(self).position as int].kind == (TokenKind::Instruction {
                    kind: instruction_kind,
                }),
            ensures
                self.position <= self.input_tokens@.len(),
                arguments_run(tokens, start, Seq::empty()) == (
                    Ok::<Seq<NodeView>, ParseErrorView>(nodes_view(args@)),
                    self.position as int,
                ),
            decreases self.input_tokens@.len() - self.position,
        {
            if self.position >= self.input_tokens.len() {
                break ;
            }
            let token = self.input_tokens[self.position];
            proof {
                assert(tokens[self.position as int] == token@);
            }
            self.position = self.position + 1;
            match token.kind {
                TokenKind::Newline => {
                    break ;
                },
                _ => {},
            }
            let ghost before = nodes_view(args@);
            match parse_number_literal(&token) {
                Ok(n) => {
                    args.push(n);
                    proof {
                        assert(nodes_view(args@) =~= before.push(n.view()));
                    }
                    continue ;
                },
                Err(err) => {
                    match err.kind {
                        ParseErrorKind::InvalidNumberLiteral { .. } => {
                            return Err(err);
                        },
                        _ => {},
                    }
                },
            }
            match parse_register_literal(&token) {
                Ok(n) => {
                    args.push(n);
                    proof {
                        assert(nodes_view(args@) =~= before.push(n.view()));
                    }
                    continue ;
                },
                Err(_) => {},
            }
            match parse_label_reference(&token) {
                Ok(n) => {
                    args.push(n);
                    proof {
                        assert(nodes_view(args@) =~= before.push(n.view()));
                    }
                },
                Err(_) => {
                    let expected = vec![
                        TokenKind::NumberLiteral { kind: NumberLiteralKind::Binary },
                        TokenKind::NumberLiteral { kind: NumberLiteralKind::Decimal },
                        TokenKind::NumberLiteral { kind: NumberLiteralKind::Hex },
                        TokenKind::LabelIdentifier,
                    ];
                    proof {
                        assert(expected@ =~= number_kinds().push(TokenKind::LabelIdentifier));
                    }
                    return Err(unexpected_token(Some(token), expected));
                },
            }
        }
        let node = Node::Instruction { kind: instruction_kind, arguments: args };
        proof {
            assert(node.view()->Instruction_arguments =~= nodes_view(args@));
        }
        Ok(node)
    }

    /// Passes over a line feed, where the parser stands at one.
    fn skip_optional_newline(&mut self) -> (r: bool)
        ensures
            final(self).input_tokens == old(self).input_tokens,
            r == (old(self).position < old(self).input_tokens@.len() && old(self).input_tokens@[old(self).position as int].kind is Newline),
            final(self).position == if r {
                old(self).position + 1
            } else {
                old(self).position as int
            },
    {
        proof {
            use_type_invariant(&*self);
        }
        if self.position < self.input_tokens.len() {
            match self.input_tokens[self.position].kind {
                TokenKind::Newline => {
                    self.position = self.position + 1;
                    return true;
                },
                _ => {},
            }
        }
        false
    }
}

} // verus!
