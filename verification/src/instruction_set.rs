//! The instruction table as text: one line for each instruction, which reads
//! `MNEMONIC PATTERN [FIELDNAME...]`.
//!
//! The pattern is written from the most significant bit. A `0` or a `1` is
//! a literal bit; a run of one letter is a field. The names after the
//! pattern name the fields in the order in which they appear.

use vstd::prelude::*;
use vstd::slice::slice_subrange;
use crate::architecture::INSTRUCTION_BITS;
use crate::text::{copy_range, is_ascii_letter, is_ascii_whitespace, is_letter, is_whitespace};

pub mod emit;
pub mod pattern;

verus! {

/// The instruction table of the machine.
pub const INSTRUCTION_TABLE: &'static str = "NOP 00000000\nSSJ 00000001\nRSF 00000010\nSSF 00000011\nRSJ 00000111\nRET 00001000\nLPB 0001xxxx immediate\nSTR 001000rr register_id\nLOD 001001rr register_id\nINC 001010rr register_id\nDEC 001011rr register_id\nMOV 0100rrkk register_from_id register_to_id\nADD 010100rr register_id\nSUB 010101rr register_id\nBOR 010110rr register_id\nAND 010111rr register_id\nGRT 011000rr register_id\nLES 011001rr register_id\nCMP 011010rr register_id\nINP 011100pp port_id\nOUT 011101pp port_id\nRSP 011110qq pin_id\nSEP 011111qq pin_id\nBRN 10xxxxxx immediate\nLDI 11rrxxxx register_id immediate\n";

/// The tokens of a text: its maximal runs of bytes that are not whitespace,
/// in order.
pub open spec fn tokens(s: Seq<u8>) -> Seq<Seq<u8>>
    decreases s.len(),
{
    if s.len() == 0 {
        Seq::empty()
    } else {
        let before = tokens(s.drop_last());
        if is_whitespace(s.last()) {
            before
        } else if s.len() >= 2 && !is_whitespace(s[s.len() - 2]) {
            before.drop_last().push(before.last().push(s.last()))
        } else {
            before.push(seq![s.last()])
        }
    }
}

/// The lines of a text: the runs of bytes between its line feeds, in order.
/// A text of `n` line feeds has `n + 1` lines, some of which may be empty.
pub open spec fn lines(s: Seq<u8>) -> Seq<Seq<u8>>
    decreases s.len(),
{
    if s.len() == 0 {
        seq![Seq::empty()]
    } else {
        let before = lines(s.drop_last());
        if s.last() == 0x0A {
            before.push(Seq::empty())
        } else {
            before.drop_last().push(before.last().push(s.last()))
        }
    }
}

/// The runs of a sequence of bytes: each maximal run of one byte, with its
/// length, in order.
pub open spec fn runs(s: Seq<u8>) -> Seq<(u8, nat)>
    decreases s.len(),
{
    if s.len() == 0 {
        Seq::empty()
    } else {
        let before = runs(s.drop_last());
        if s.len() >= 2 && s[s.len() - 2] == s.last() {
            before.drop_last().push((s.last(), before.last().1 + 1))
        } else {
            before.push((s.last(), 1))
        }
    }
}

/// The letters of a pattern, in order.
pub open spec fn letters(s: Seq<u8>) -> Seq<u8>
    decreases s.len(),
{
    if s.len() == 0 {
        Seq::empty()
    } else if is_letter(s.last()) {
        letters(s.drop_last()).push(s.last())
    } else {
        letters(s.drop_last())
    }
}

/// A field of a pattern.
pub ghost struct FieldView {
    pub symbol: u8,
    pub name: Seq<u8>,
    pub bits: nat,
}

/// A line of the table.
pub ghost struct InstrDefView {
    pub name: Seq<u8>,
    pub pattern: Seq<u8>,
    pub fields: Seq<FieldView>,
}

/// The fields of a pattern: the runs of its letters, each with the name at
/// its position among `names`. There are none where the names run out.
pub open spec fn fields_of(pattern: Seq<u8>, names: Seq<Seq<u8>>) -> Option<Seq<FieldView>> {
    let found = runs(letters(pattern));
    if found.len() <= names.len() {
        Some(
            Seq::new(
                found.len(),
                |i: int| FieldView { symbol: found[i].0, name: names[i], bits: found[i].1 },
            ),
        )
    } else {
        None
    }
}

/// What a line of the table says: its first token is the mnemonic, its
/// second the pattern, and its other tokens name the pattern's fields. A
/// line of fewer than two tokens, with a pattern that is not as long as an
/// instruction word is wide, or with fewer names than fields, says nothing.
pub open spec fn line_def(line: Seq<u8>) -> Option<InstrDefView> {
    let parts = tokens(line);
    if parts.len() < 2 || parts[1].len() != INSTRUCTION_BITS {
        None
    } else {
        match fields_of(parts[1], parts.skip(2)) {
            Some(fields) => Some(InstrDefView { name: parts[0], pattern: parts[1], fields }),
            None => None,
        }
    }
}

/// What the first `n` lines say, in order, without the lines that hold
/// nothing but whitespace. They say nothing where one of them says nothing.
pub open spec fn defs_of(all: Seq<Seq<u8>>, n: nat) -> Option<Seq<InstrDefView>>
    decreases n,
{
    if n == 0 {
        Some(Seq::empty())
    } else {
        match defs_of(all, (n - 1) as nat) {
            None => None,
            Some(before) => if tokens(all[n - 1]).len() == 0 {
                Some(before)
            } else {
                match line_def(all[n - 1]) {
                    Some(def) => Some(before.push(def)),
                    None => None,
                }
            },
        }
    }
}

/// A field of a pattern: the letter that stands for it, its name and its
/// width in bits.
#[derive(Debug, PartialEq, Eq)]
pub struct Field {
    pub symbol: u8,
    pub name: Vec<u8>,
    pub bits: u8,
}

/// A line of the table: the mnemonic, the pattern and the pattern's fields.
#[derive(Debug, PartialEq, Eq)]
pub struct InstrDef {
    pub name: Vec<u8>,
    pub pattern: Vec<u8>,
    pub fields: Vec<Field>,
}

impl View for Field {
    type V = FieldView;

    open spec fn view(&self) -> FieldView {
        FieldView { symbol: self.symbol, name: self.name@, bits: self.bits as nat }
    }
}

impl View for InstrDef {
    type V = InstrDefView;

    open spec fn view(&self) -> InstrDefView {
        InstrDefView {
            name: self.name@,
            pattern: self.pattern@,
            fields: self.fields@.map_values(|f: Field| f@),
        }
    }
}

/// What a list of table lines holds.
pub open spec fn defs_view(defs: Seq<InstrDef>) -> Seq<InstrDefView> {
    defs.map_values(|d: InstrDef| d@)
}

/// What a list of byte strings holds.
pub open spec fn texts_view(texts: Seq<Vec<u8>>) -> Seq<Seq<u8>> {
    texts.map_values(|t: Vec<u8>| t@)
}

/// Splits a text into its tokens.
pub fn split_whitespace(text: &[u8]) -> (r: Vec<Vec<u8>>)
    ensures
        texts_view(r@) == tokens(text@),
{
    let mut done: Vec<Vec<u8>> = Vec::new();
    let mut current: Vec<u8> = Vec::new();
    let mut in_token = false;
    let mut i: usize = 0;
    proof {
        assert(texts_view(done@) =~= Seq::<Seq<u8>>::empty());
        assert(text@.take(0) =~= Seq::<u8>::empty());
    }
    while i < text.len()
        invariant
            i <= text@.len(),
            in_token == (i > 0 && !is_whitespace(text@[i - 1])),
            !in_token ==> current@.len() == 0,
            tokens(text@.take(i as int)) == if in_token {
                texts_view(done@).push(current@)
            } else {
                texts_view(done@)
            },
        decreases text@.len() - i,
    {
        let c = text[i];
        proof {
            assert(text@.take(i + 1).drop_last() =~= text@.take(i as int));
        }
        if is_ascii_whitespace(c) {
            if in_token {
                let ghost before = texts_view(done@);
                done.push(current);
                proof {
                    assert(texts_view(done@) =~= before.push(current@));
                }
                current = Vec::new();
                in_token = false;
            }
        } else {
            let ghost before = current@;
            current.push(c);
            proof {
                if in_token {
                    assert(texts_view(done@).push(before).drop_last() =~= texts_view(done@));
                } else {
                    assert(current@ =~= seq![c]);
                }
            }
            in_token = true;
        }
        i += 1;
    }
    proof {
        assert(text@.take(i as int) =~= text@);
    }
    if in_token {
        let ghost before = texts_view(done@);
        done.push(current);
        proof {
            assert(texts_view(done@) =~= before.push(current@));
        }
    }
    done
}

/// Splits a text into its lines.
pub fn split_lines(text: &[u8]) -> (r: Vec<Vec<u8>>)
    ensures
        texts_view(r@) == lines(text@),
{
    let mut done: Vec<Vec<u8>> = Vec::new();
    let mut current: Vec<u8> = Vec::new();
    let mut i: usize = 0;
    proof {
        assert(texts_view(done@).push(current@) =~= seq![Seq::<u8>::empty()]);
        assert(text@.take(0) =~= Seq::<u8>::empty());
    }
    while i < text.len()
        invariant
            i <= text@.len(),
            lines(text@.take(i as int)) == texts_view(done@).push(current@),
        decreases text@.len() - i,
    {
        let c = text[i];
        proof {
            assert(text@.take(i + 1).drop_last() =~= text@.take(i as int));
        }
        if c == 0x0A {
            let ghost before = texts_view(done@);
            done.push(current);
            proof {
                assert(texts_view(done@) =~= before.push(current@));
            }
            current = Vec::new();
        } else {
            let ghost before = current@;
            current.push(c);
            proof {
                assert(texts_view(done@).push(before).drop_last() =~= texts_view(done@));
            }
        }
        i += 1;
    }
    proof {
        assert(text@.take(i as int) =~= text@);
    }
    let ghost before = texts_view(done@);
    done.push(current);
    proof {
        assert(texts_view(done@) =~= before.push(current@));
    }
    done
}

/// What a list of fields holds.
pub open spec fn fields_view(fields: Seq<Field>) -> Seq<FieldView> {
    fields.map_values(|f: Field| f@)
}

/// The letters of a prefix that grows by one byte grow by that byte, where
/// it is a letter.
proof fn lemma_letters_step(s: Seq<u8>, i: int)
    requires
        0 <= i < s.len(),
    ensures
        letters(s.take(i + 1)) == if is_letter(s[i]) {
            letters(s.take(i)).push(s[i])
        } else {
            letters(s.take(i))
        },
        letters(s.take(i)).len() <= i,
    decreases i,
{
    assert(s.take(i + 1).drop_last() =~= s.take(i));
    if i > 0 {
        lemma_letters_step(s, i - 1);
    }
}

/// The runs of the letters of a pattern: each letter that starts a run,
/// with the length of the run.
pub fn letter_runs(pattern: &[u8]) -> (r: Vec<(u8, u8)>)
    requires
        pattern@.len() <= u8::MAX,
    ensures
        r@.len() == runs(letters(pattern@)).len(),
        forall|k: int|
            0 <= k < r@.len() ==> (#[trigger] r@[k]).0 == runs(letters(pattern@))[k].0 && r@[k].1
                == runs(letters(pattern@))[k].1,
{
    let mut closed: Vec<(u8, u8)> = Vec::new();
    let mut have_last = false;
    let mut last: u8 = 0;
    let mut count: u8 = 0;
    let mut i: usize = 0;
    proof {
        assert(pattern@.take(0) =~= Seq::<u8>::empty());
    }
    while i < pattern.len()
        invariant
            i <= pattern@.len(),
            pattern@.len() <= u8::MAX,
            letters(pattern@.take(i as int)).len() <= i,
            have_last == (letters(pattern@.take(i as int)).len() > 0),
            have_last ==> letters(pattern@.take(i as int)).last() == last && 1 <= count,
            count <= i,
            !have_last ==> closed@.len() == 0 && count == 0,
            runs(letters(pattern@.take(i as int))).len() == if have_last {
                closed@.len() + 1
            } else {
                0
            },
            forall|k: int|
                0 <= k < closed@.len() ==> (#[trigger] closed@[k]).0 == runs(
                    letters(pattern@.take(i as int)),
                )[k].0 && closed@[k].1 == runs(letters(pattern@.take(i as int)))[k].1,
            have_last ==> runs(letters(pattern@.take(i as int))).last() == (last, count as nat),
        decreases pattern@.len() - i,
    {
        let c = pattern[i];
        proof {
            lemma_letters_step(pattern@, i as int);
        }
        if is_ascii_letter(c) {
            let ghost before = letters(pattern@.take(i as int));
            proof {
                let after = before.push(c);
                assert(after.drop_last() =~= before);
                assert(after.last() == c);
                if before.len() > 0 {
                    assert(after[after.len() - 2] == before.last());
                }
            }
            if have_last && c != last {
                closed.push((last, count));
                count = 0;
            }
            last = c;
            have_last = true;
            count += 1;
        }
        i += 1;
    }
    proof {
        assert(pattern@.take(i as int) =~= pattern@);
    }
    if have_last {
        closed.push((last, count));
    }
    closed
}

/// Extracts the fields of a pattern, and names them by `field_names` in the
/// order in which they appear. There is no result where the names run out.
pub fn extract_fields(pattern: &[u8], field_names: &[Vec<u8>]) -> (r: Option<Vec<Field>>)
    requires
        pattern@.len() <= u8::MAX,
    ensures
        match fields_of(pattern@, texts_view(field_names@)) {
            Some(fields) => r.is_some() && fields_view(r.unwrap()@) == fields,
            None => r.is_none(),
        },
{
    let found = letter_runs(pattern);
    if found.len() > field_names.len() {
        return None;
    }
    let mut result: Vec<Field> = Vec::new();
    let mut k: usize = 0;
    while k < found.len()
        invariant
            k <= found@.len(),
            found@.len() <= field_names@.len(),
            result@.len() == k,
            forall|j: int|
                0 <= j < k ==> (#[trigger] result@[j])@ == (FieldView {
                    symbol: found@[j].0,
                    name: field_names@[j]@,
                    bits: found@[j].1 as nat,
                }),
        decreases found@.len() - k,
    {
        let name = copy_range(field_names[k].as_slice(), 0, field_names[k].len());
        proof {
            assert(name@ =~= field_names@[k as int]@);
        }
        result.push(Field { symbol: found[k].0, name, bits: found[k].1 });
        k += 1;
    }
    proof {
        assert(fields_view(result@) =~= fields_of(pattern@, texts_view(field_names@)).unwrap());
    }
    Some(result)
}

/// Reads a line of the table.
pub fn parse_line(line: &[u8]) -> (r: Option<InstrDef>)
    ensures
        match line_def(line@) {
            Some(def) => r.is_some() && r.unwrap()@ == def,
            None => r.is_none(),
        },
{
    let parts = split_whitespace(line);
    if parts.len() < 2 || parts[1].len() != INSTRUCTION_BITS {
        return None;
    }
    let names = slice_subrange(parts.as_slice(), 2, parts.len());
    proof {
        assert(texts_view(names@) =~= tokens(line@).skip(2));
        assert(texts_view(parts@)[0] == parts@[0]@);
        assert(texts_view(parts@)[1] == parts@[1]@);
    }
    match extract_fields(parts[1].as_slice(), names) {
        Some(fields) => {
            let name = copy_range(parts[0].as_slice(), 0, parts[0].len());
            let pattern = copy_range(parts[1].as_slice(), 0, parts[1].len());
            proof {
                assert(name@ =~= parts@[0]@);
                assert(pattern@ =~= parts@[1]@);
            }
            Some(InstrDef { name, pattern, fields })
        },
        None => None,
    }
}

/// Reads the table: every line that holds more than whitespace, in order.
/// There is no result where a line cannot be read.
pub fn parse_defs(defs: &[u8]) -> (r: Option<Vec<InstrDef>>)
    ensures
        match defs_of(lines(defs@), lines(defs@).len()) {
            Some(table) => r.is_some() && defs_view(r.unwrap()@) == table,
            None => r.is_none(),
        },
{
    let all = split_lines(defs);
    let mut result: Vec<InstrDef> = Vec::new();
    let mut i: usize = 0;
    proof {
        assert(defs_view(result@) =~= Seq::<InstrDefView>::empty());
    }
    while i < all.len()
        invariant
            i <= all@.len(),
            texts_view(all@) == lines(defs@),
            defs_of(lines(defs@), i as nat) == Some(defs_view(result@)),
        decreases all@.len() - i,
    {
        proof {
            assert(texts_view(all@)[i as int] == all@[i as int]@);
        }
        let parts = split_whitespace(all[i].as_slice());
        if parts.len() > 0 {
            match parse_line(all[i].as_slice()) {
                Some(def) => {
                    let ghost before = defs_view(result@);
                    result.push(def);
                    proof {
                        assert(defs_view(result@) =~= before.push(def@));
                    }
                },
                None => {
                    proof {
                        lemma_defs_of_none(lines(defs@), (i + 1) as nat, lines(defs@).len());
                    }
                    return None;
                },
            }
        }
        i += 1;
    }
    Some(result)
}

/// Where the first `n` lines say nothing, no longer list of lines says anything.
proof fn lemma_defs_of_none(all: Seq<Seq<u8>>, n: nat, m: nat)
    requires
        n <= m,
        defs_of(all, n).is_none(),
    ensures
        defs_of(all, m).is_none(),
    decreases m - n,
{
    if n < m {
        lemma_defs_of_none(all, n, (m - 1) as nat);
    }
}

} // verus!
