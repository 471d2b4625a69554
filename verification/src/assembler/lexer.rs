//! The lexer: cuts a program text into tokens.

use vstd::prelude::*;
use vstd::slice::slice_subrange;
use crate::assembler::location::Location;
use crate::text::{is_ascii_digit, is_ascii_whitespace, is_digit, is_text, is_whitespace, text};

verus! {

/// The mnemonics that the lexer knows.
#[allow(non_camel_case_types)]
#[derive(Eq, PartialEq, Copy, Clone, Debug)]
pub enum InstructionKind {
    NOP,
    STR,
    LOD,
    LDI,
    INC,
    DEC,
    MOV,
    INP,
    OUT,
    SEP,
    RSP,
    ADD,
    SUB,
    BOR,
    AND,
    CMP,
    GRT,
    LES,
    BRN,
    SSJ,
    RSJ,
    RET,
    SSF,
    RSF,
}

/// The instruction that a word names, if it is a mnemonic. Mnemonics are
/// written in lower case.
pub open spec fn instruction_kind_of(s: Seq<u8>) -> Option<InstructionKind> {
    if s == text("nop") {
        Some(InstructionKind::NOP)
    } else if s == text("str") {
        Some(InstructionKind::STR)
    } else if s == text("lod") {
        Some(InstructionKind::LOD)
    } else if s == text("ldi") {
        Some(InstructionKind::LDI)
    } else if s == text("inc") {
        Some(InstructionKind::INC)
    } else if s == text("dec") {
        Some(InstructionKind::DEC)
    } else if s == text("mov") {
        Some(InstructionKind::MOV)
    } else if s == text("inp") {
        Some(InstructionKind::INP)
    } else if s == text("out") {
        Some(InstructionKind::OUT)
    } else if s == text("sep") {
        Some(InstructionKind::SEP)
    } else if s == text("rsp") {
        Some(InstructionKind::RSP)
    } else if s == text("add") {
        Some(InstructionKind::ADD)
    } else if s == text("sub") {
        Some(InstructionKind::SUB)
    } else if s == text("bor") {
        Some(InstructionKind::BOR)
    } else if s == text("and") {
        Some(InstructionKind::AND)
    } else if s == text("cmp") {
        Some(InstructionKind::CMP)
    } else if s == text("grt") {
        Some(InstructionKind::GRT)
    } else if s == text("les") {
        Some(InstructionKind::LES)
    } else if s == text("brn") {
        Some(InstructionKind::BRN)
    } else if s == text("ssj") {
        Some(InstructionKind::SSJ)
    } else if s == text("rsj") {
        Some(InstructionKind::RSJ)
    } else if s == text("ret") {
        Some(InstructionKind::RET)
    } else if s == text("ssf") {
        Some(InstructionKind::SSF)
    } else if s == text("rsf") {
        Some(InstructionKind::RSF)
    } else {
        None
    }
}

impl InstructionKind {
    /// The instruction that a word names, if it is a mnemonic.
    pub fn from_str(s: &[u8]) -> (r: Option<Self>)
        ensures
            r == instruction_kind_of(s@),
    {
        if is_text(s, "nop") {
            Some(InstructionKind::NOP)
        } else if is_text(s, "str") {
            Some(InstructionKind::STR)
        } else if is_text(s, "lod") {
            Some(InstructionKind::LOD)
        } else if is_text(s, "ldi") {
            Some(InstructionKind::LDI)
        } else if is_text(s, "inc") {
            Some(InstructionKind::INC)
        } else if is_text(s, "dec") {
            Some(InstructionKind::DEC)
        } else if is_text(s, "mov") {
            Some(InstructionKind::MOV)
        } else if is_text(s, "inp") {
            Some(InstructionKind::INP)
        } else if is_text(s, "out") {
            Some(InstructionKind::OUT)
        } else if is_text(s, "sep") {
            Some(InstructionKind::SEP)
        } else if is_text(s, "rsp") {
            Some(InstructionKind::RSP)
        } else if is_text(s, "add") {
            Some(InstructionKind::ADD)
        } else if is_text(s, "sub") {
            Some(InstructionKind::SUB)
        } else if is_text(s, "bor") {
            Some(InstructionKind::BOR)
        } else if is_text(s, "and") {
            Some(InstructionKind::AND)
        } else if is_text(s, "cmp") {
            Some(InstructionKind::CMP)
        } else if is_text(s, "grt") {
            Some(InstructionKind::GRT)
        } else if is_text(s, "les") {
            Some(InstructionKind::LES)
        } else if is_text(s, "brn") {
            Some(InstructionKind::BRN)
        } else if is_text(s, "ssj") {
            Some(InstructionKind::SSJ)
        } else if is_text(s, "rsj") {
            Some(InstructionKind::RSJ)
        } else if is_text(s, "ret") {
            Some(InstructionKind::RET)
        } else if is_text(s, "ssf") {
            Some(InstructionKind::SSF)
        } else if is_text(s, "rsf") {
            Some(InstructionKind::RSF)
        } else {
            None
        }
    }
}

/// The registers that a program can name.
#[derive(Eq, PartialEq, Copy, Clone, Debug)]
pub enum Register {
    A,
    X,
    Y,
    Z,
}

/// The register that a word names, if it names one.
pub open spec fn register_of(s: Seq<u8>) -> Option<Register> {
    if s == text("a") {
        Some(Register::A)
    } else if s == text("x") {
        Some(Register::X)
    } else if s == text("y") {
        Some(Register::Y)
    } else if s == text("z") {
        Some(Register::Z)
    } else {
        None
    }
}

impl Register {
    /// The register that a word names, if it names one.
    pub fn from_str(s: &[u8]) -> (r: Option<Self>)
        ensures
            r == register_of(s@),
    {
        if is_text(s, "a") {
            Some(Register::A)
        } else if is_text(s, "x") {
            Some(Register::X)
        } else if is_text(s, "y") {
            Some(Register::Y)
        } else if is_text(s, "z") {
            Some(Register::Z)
        } else {
            None
        }
    }
}

/// How a number is written.
#[derive(Eq, PartialEq, Copy, Clone, Debug)]
pub enum NumberLiteralKind {
    Decimal,
    Hex,
    Binary,
}

/// The kinds of tokens.
#[allow(inconsistent_fields)]
#[derive(Eq, PartialEq, Copy, Clone, Debug)]
pub enum TokenKind {
    Newline,
    Colon,
    LabelIdentifier,
    Instruction { kind: InstructionKind },
    NumberLiteral { kind: NumberLiteralKind },
    RegisterLiteral { register: Register },
}

/// A token: its kind, where it stands, and the bytes it is made of.
#[derive(Clone, Copy, Debug)]
pub struct Token<'a> {
    pub kind: TokenKind,
    pub location: Location,
    pub text: &'a [u8],
}

/// What a token holds.
pub ghost struct TokenView {
    pub kind: TokenKind,
    pub location: Location,
    pub text: Seq<u8>,
}

impl<'a> View for Token<'a> {
    type V = TokenView;

    open spec fn view(&self) -> TokenView {
        TokenView { kind: self.kind, location: self.location, text: self.text@ }
    }
}

/// The kind of the token that a byte is by itself, if it is one.
pub open spec fn single_char_kind(c: u8) -> Option<TokenKind> {
    if c == 0x0A {
        Some(TokenKind::Newline)
    } else if c == 0x3A {
        Some(TokenKind::Colon)
    } else {
        None
    }
}

/// Whether a byte ends a word: a byte that is a token by itself,
/// whitespace, or the `;` that starts a comment.
pub open spec fn is_terminator(c: u8) -> bool {
    single_char_kind(c).is_some() || is_whitespace(c) || c == 0x3B
}

/// The index at which the next token starts, seen from index `i`:
/// whitespace other than a line feed is passed over, and so is a comment,
/// from its `;` up to the line feed that ends its line. Where no token
/// follows, this is the length of the program.
pub open spec fn token_start(program: Seq<u8>, i: int, in_comment: bool) -> int
    decreases program.len() - i,
{
    if i < 0 || i >= program.len() {
        i
    } else if in_comment {
        if program[i] == 0x0A {
            i
        } else {
            token_start(program, i + 1, true)
        }
    } else if program[i] == 0x3B {
        token_start(program, i + 1, true)
    } else if is_whitespace(program[i]) && program[i] != 0x0A {
        token_start(program, i + 1, false)
    } else {
        i
    }
}

/// The index at which the word that starts at index `i` ends: the index of
/// the first terminator from `i` on, or the length of the program.
pub open spec fn sequence_end(program: Seq<u8>, i: int) -> int
    decreases program.len() - i,
{
    if 0 <= i < program.len() && !is_terminator(program[i]) {
        sequence_end(program, i + 1)
    } else {
        i
    }
}

/// The location one byte on from `at`: on the next line after a line
/// feed, otherwise one column on.
pub open spec fn step(program: Seq<u8>, at: Location) -> Location {
    if program[at.index as int] == 0x0A {
        Location { index: (at.index + 1) as usize, line: (at.line + 1) as usize, col: 1 }
    } else {
        Location { index: (at.index + 1) as usize, line: at.line, col: (at.col + 1) as usize }
    }
}

/// The location of the byte at index `to`, counted on from the location `at`.
pub open spec fn advance_to(program: Seq<u8>, at: Location, to: int) -> Location
    decreases to - at.index,
{
    if at.index < to && at.index < usize::MAX {
        advance_to(program, step(program, at), to)
    } else {
        at
    }
}

/// How a number that is written as `word` is written: in hexadecimal after
/// `0x`, in binary after `0b`, and in decimal otherwise.
pub open spec fn number_kind(word: Seq<u8>) -> NumberLiteralKind {
    if word.len() >= 2 && word[0] == 0x30 && word[1] == 0x78 {
        NumberLiteralKind::Hex
    } else if word.len() >= 2 && word[0] == 0x30 && word[1] == 0x62 {
        NumberLiteralKind::Binary
    } else {
        NumberLiteralKind::Decimal
    }
}

/// The kind of a word that is no number: an instruction where it is a
/// mnemonic, else a register where it names one, else a label.
pub open spec fn word_kind(word: Seq<u8>) -> TokenKind {
    match instruction_kind_of(word) {
        Some(kind) => TokenKind::Instruction { kind },
        None => match register_of(word) {
            Some(register) => TokenKind::RegisterLiteral { register },
            None => TokenKind::LabelIdentifier,
        },
    }
}

/// The next token of `program` seen from the location `at`, and the
/// location after it. A token of one byte carries the location after it;
/// a word carries the location of its first byte.
pub open spec fn next_token_spec(program: Seq<u8>, at: Location) -> (Option<TokenView>, Location) {
    let start = token_start(program, at.index as int, false);
    let from = advance_to(program, at, start);
    if start >= program.len() {
        (None, from)
    } else {
        let c = program[start];
        match single_char_kind(c) {
            Some(kind) => (
                Some(
                    TokenView {
                        kind,
                        location: step(program, from),
                        text: program.subrange(start, start + 1),
                    },
                ),
                step(program, from),
            ),
            None => {
                let end = sequence_end(program, start);
                let word = program.subrange(start, end);
                (
                    Some(
                        TokenView {
                            kind: if is_digit(c) {
                                TokenKind::NumberLiteral { kind: number_kind(word) }
                            } else {
                                word_kind(word)
                            },
                            location: from,
                            text: word,
                        },
                    ),
                    advance_to(program, from, end),
                )
            },
        }
    }
}

/// The next token starts at or after the index from which it is sought.
pub proof fn lemma_token_start_range(program: Seq<u8>, i: int, in_comment: bool)
    requires
        0 <= i <= program.len(),
    ensures
        i <= token_start(program, i, in_comment) <= program.len(),
    decreases program.len() - i,
{
    if i < program.len() {
        lemma_token_start_range(program, i + 1, true);
        lemma_token_start_range(program, i + 1, false);
    }
}

/// A word ends at or after the index at which it starts.
pub proof fn lemma_sequence_end_range(program: Seq<u8>, i: int)
    requires
        0 <= i <= program.len(),
    ensures
        i <= sequence_end(program, i) <= program.len(),
    decreases program.len() - i,
{
    if i < program.len() {
        lemma_sequence_end_range(program, i + 1);
    }
}

/// The kind of the token that a byte is by itself, if it is one.
pub fn single_char_token(c: u8) -> (r: Option<TokenKind>)
    ensures
        r == single_char_kind(c),
{
    if c == 0x0A {
        Some(TokenKind::Newline)
    } else if c == 0x3A {
        Some(TokenKind::Colon)
    } else {
        None
    }
}

/// Whether a byte ends a word.
pub fn is_sequence_terminator(c: u8) -> (r: bool)
    ensures
        r == is_terminator(c),
{
    single_char_token(c).is_some() || is_ascii_whitespace(c) || c == 0x3B
}

/// A lexer over a program text.
pub struct Lexer<'a> {
    /// The program.
    program: &'a [u8],
    /// The current location of the lexer in the program.
    location: Location,
}

impl<'a> Lexer<'a> {
    #[verifier::type_invariant]
    spec fn well_formed(self) -> bool {
        &&& self.program@.len() < usize::MAX
        &&& self.location.index <= self.program@.len()
        &&& self.location.line <= self.location.index + 1
        &&& self.location.col <= self.location.index + 1
    }

    /// The program that the lexer reads.
    pub closed spec fn program(self) -> Seq<u8> {
        self.program@
    }

    /// The location at which the lexer stands.
    pub closed spec fn location(self) -> Location {
        self.location
    }

    /// A lexer at the start of `program`.
    pub fn new(program: &'a [u8]) -> (r: Self)
        requires
            program@.len() < usize::MAX,
        ensures
            r.program() == program@,
            r.location() == (Location { index: 0, line: 1, col: 1 }),
    {
        Lexer { program, location: Location::start() }
    }

    /// The tokens that are left, one at a time.
    pub fn iter(&'a mut self) -> (r: Iter<'a>)
        ensures
            r.lexer.program() == old(self).program(),
            r.lexer.location() == old(self).location(),
    {
        Iter { lexer: self }
    }

    /// Reads the next token, if one is left.
    pub fn next_token(&mut self) -> (r: Option<Token<'a>>)
        ensures
            final(self).program() == old(self).program(),
            match next_token_spec(old(self).program(), old(self).location()) {
                (Some(token), after) => r.is_some() && r.unwrap()@ == token && final(self).location() == after,
                (None, after) => r.is_none() && final(self).location() == after,
            },
    {
        proof {
            use_type_invariant(&*self);
            lemma_token_start_range(self.program@, self.location.index as int, false);
        }
        let ghost start = token_start(self.program@, self.location.index as int, false);
        loop
            invariant
                self.program == old(self).program,
                self.location.index <= start <= self.program@.len(),
                start == token_start(self.program@, old(self).location.index as int, false),
                start == token_start(self.program@, self.location.index as int, false),
                advance_to(self.program@, old(self).location, start) == advance_to(
                    self.program@,
                    self.location,
                    start,
                ),
            decreases self.program@.len() - self.location.index,
        {
            proof {
                use_type_invariant(&*self);
            }
            let c = match self.current_char() {
                Some(c) => c,
                None => {
                    return None;
                },
            };
            match single_char_token(c) {
                Some(kind) => {
                    return self.handle_single(kind);
                },
                None => {},
            }
            if is_ascii_digit(c) {
                return self.handle_number();
            } else if is_ascii_whitespace(c) {
                proof {
                    lemma_token_start_range(self.program@, self.location.index + 1, false);
                }
                self.advance();
            } else if c == 0x3B {
                self.handle_comment();
            } else {
                return self.handle_ident();
            }
        }
    }

    /// The token of one byte at the current location.
    fn handle_single(&mut self, kind: TokenKind) -> (r: Option<Token<'a>>)
        requires
            old(self).location.index < old(self).program@.len(),
        ensures
            final(self).program == old(self).program,
            final(self).location == step(old(self).program@, old(self).location),
            r.is_some(),
            r.unwrap()@ == (TokenView {
                kind,
                location: final(self).location,
                text: old(self).program@.subrange(
                    old(self).location.index as int,
                    old(self).location.index + 1,
                ),
            }),
    {
        let current = match self.current_char_as_str() {
            Some(current) => current,
            None => {
                return None;
            },
        };
        self.advance();
        Some(Token { kind, location: self.location, text: current })
    }

    /// The number that starts at the current location.
    fn handle_number(&mut self) -> (r: Option<Token<'a>>)
        requires
            old(self).location.index < old(self).program@.len(),
            !is_terminator(old(self).program@[old(self).location.index as int]),
        ensures
            final(self).program == old(self).program,
            final(self).location == advance_to(
                old(self).program@,
                old(self).location,
                sequence_end(old(self).program@, old(self).location.index as int),
            ),
            r.is_some(),
            r.unwrap()@ == (TokenView {
                kind: TokenKind::NumberLiteral { kind: number_kind(r.unwrap().text@) },
                location: old(self).location,
                text: old(self).program@.subrange(
                    old(self).location.index as int,
                    sequence_end(old(self).program@, old(self).location.index as int),
                ),
            }),
    {
        let start = self.location;
        let num = match self.get_sequence() {
            Some(num) => num,
            None => {
                return None;
            },
        };
        let kind = if num.len() >= 2 && num[0] == 0x30 && num[1] == 0x78 {
            NumberLiteralKind::Hex
        } else if num.len() >= 2 && num[0] == 0x30 && num[1] == 0x62 {
            NumberLiteralKind::Binary
        } else {
            NumberLiteralKind::Decimal
        };
        Some(Token { kind: TokenKind::NumberLiteral { kind }, location: start, text: num })
    }

    /// The word that starts at the current location.
    fn handle_ident(&mut self) -> (r: Option<Token<'a>>)
        requires
            old(self).location.index < old(self).program@.len(),
            !is_terminator(old(self).program@[old(self).location.index as int]),
        ensures
            final(self).program == old(self).program,
            final(self).location == advance_to(
                old(self).program@,
                old(self).location,
                sequence_end(old(self).program@, old(self).location.index as int),
            ),
            r.is_some(),
            r.unwrap()@ == (TokenView {
                kind: word_kind(r.unwrap().text@),
                location: old(self).location,
                text: old(self).program@.subrange(
                    old(self).location.index as int,
                    sequence_end(old(self).program@, old(self).location.index as int),
                ),
            }),
    {
        let start = self.location;
        let word = match self.get_sequence() {
            Some(word) => word,
            None => {
                return None;
            },
        };
        let kind = match InstructionKind::from_str(word) {
            Some(inst) => TokenKind::Instruction { kind: inst },
            None => match Register::from_str(word) {
                Some(reg) => TokenKind::RegisterLiteral { register: reg },
                None => TokenKind::LabelIdentifier,
            },
        };
        Some(Token { kind, location: start, text: word })
    }

    /// Passes over the comment that starts at the current location, up to
    /// the line feed that ends its line.
    fn handle_comment(&mut self)
        requires
            old(self).location.index < old(self).program@.len(),
            old(self).program@[old(self).location.index as int] == 0x3B,
        ensures
            final(self).program == old(self).program,
            final(self).location.index == token_start(
                old(self).program@,
                old(self).location.index as int,
                false,
            ),
            final(self).location.index > old(self).location.index,
            final(self).location == advance_to(
                old(self).program@,
                old(self).location,
                final(self).location.index as int,
            ),
            token_start(final(self).program@, final(self).location.index as int, false) == final(self).location.index,
    {
        proof {
            use_type_invariant(&*self);
            lemma_token_start_range(self.program@, self.location.index + 1, true);
        }
        let ghost end = token_start(self.program@, self.location.index as int, false);
        self.advance();
        loop
            invariant
                self.program == old(self).program,
                old(self).location.index < self.location.index <= end <= self.program@.len(),
                end == token_start(self.program@, old(self).location.index as int, false),
                end == token_start(self.program@, self.location.index as int, true),
                advance_to(self.program@, old(self).location, end) == advance_to(
                    self.program@,
                    self.location,
                    end,
                ),
            ensures
                self.location.index == end,
                self.location.index >= self.program@.len() || self.program@[self.location.index as int]
                    == 0x0A,
            decreases self.program@.len() - self.location.index,
        {
            proof {
                use_type_invariant(&*self);
            }
            match self.current_char() {
                Some(current) => {
                    if current == 0x0A {
                        break ;
                    }
                    proof {
                        lemma_token_start_range(self.program@, self.location.index + 1, true);
                    }
                    self.advance()
                },
                None => {
                    break ;
                },
            }
        }
    }

    /// The word from the current location up to the next terminator or the
    /// end of the program.
    fn get_sequence(&mut self) -> (r: Option<&'a [u8]>)
        requires
            old(self).location.index < old(self).program@.len(),
            !is_terminator(old(self).program@[old(self).location.index as int]),
        ensures
            final(self).program == old(self).program,
            final(self).location.index == sequence_end(
                old(self).program@,
                old(self).location.index as int,
            ),
            final(self).location == advance_to(
                old(self).program@,
                old(self).location,
                final(self).location.index as int,
            ),
            r.is_some(),
            r.unwrap()@ == old(self).program@.subrange(
                old(self).location.index as int,
                final(self).location.index as int,
            ),
            r.unwrap()@.len() > 0,
    {
        proof {
            use_type_invariant(&*self);
            lemma_sequence_end_range(self.program@, self.location.index as int);
            lemma_sequence_end_range(self.program@, self.location.index + 1);
        }
        let start = self.location;
        let ghost end = sequence_end(self.program@, self.location.index as int);
        loop
            invariant
                self.program == old(self).program,
                start == old(self).location,
                start.index <= self.location.index <= end <= self.program@.len(),
                end == sequence_end(self.program@, start.index as int),
                end == sequence_end(self.program@, self.location.index as int),
                end > start.index,
                advance_to(self.program@, start, end) == advance_to(
                    self.program@,
                    self.location,
                    end,
                ),
            ensures
                self.location.index == end,
            decreases self.program@.len() - self.location.index,
        {
            proof {
                use_type_invariant(&*self);
            }
            match self.current_char() {
                Some(current) => {
                    if is_sequence_terminator(current) {
                        break ;
                    }
                    proof {
                        lemma_sequence_end_range(self.program@, self.location.index + 1);
                    }
                    self.advance()
                },
                None => {
                    break ;
                },
            }
        }
        proof {
            use_type_invariant(&*self);
        }
        Some(slice_subrange(self.program, start.index, self.location.index))
    }

    /// Moves the current location one byte on, where a byte is left.
    fn advance(&mut self)
        ensures
            final(self).program == old(self).program,
            final(self).location == if old(self).location.index < old(self).program@.len() {
                step(old(self).program@, old(self).location)
            } else {
                old(self).location
            },
    {
        proof {
            use_type_invariant(&*self);
        }
        match self.current_char() {
            Some(c) => {
                if c == 0x0A {
                    self.location = self.location.advance_line()
                } else {
                    self.location = self.location.advance_col()
                }
            },
            None => {},
        }
    }

    /// The byte at the current location, if one is left.
    fn current_char(&self) -> (r: Option<u8>)
        ensures
            r == if self.location.index < self.program@.len() {
                Some(self.program@[self.location.index as int])
            } else {
                None
            },
    {
        if self.location.index < self.program.len() {
            Some(self.program[self.location.index])
        } else {
            None
        }
    }

    /// The byte at the current location as a text of one byte, if one is left.
    fn current_char_as_str(&self) -> (r: Option<&'a [u8]>)
        ensures
            self.location.index < self.program@.len() ==> r.is_some() && r.unwrap()@
                == self.program@.subrange(
                self.location.index as int,
                self.location.index + 1,
            ),
            self.location.index >= self.program@.len() ==> r.is_none(),
    {
        let index = self.location.index;
        if index < self.program.len() {
            Some(slice_subrange(self.program, index, index + 1))
        } else {
            None
        }
    }
}

/// The tokens of a lexer that are left.
pub struct Iter<'a> {
    pub lexer: &'a mut Lexer<'a>,
}

impl<'a> Iter<'a> {
    /// Reads the next token, if one is left.
    pub fn next(&mut self) -> (r: Option<Token<'a>>)
        ensures
            final(self).lexer.program() == old(self).lexer.program(),
            match next_token_spec(old(self).lexer.program(), old(self).lexer.location()) {
                (Some(token), after) => r.is_some() && r.unwrap()@ == token && final(self).lexer.location() == after,
                (None, after) => r.is_none() && final(self).lexer.location() == after,
            },
    {
        self.lexer.next_token()
    }
}

} // verus!
