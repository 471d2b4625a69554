//! The program text that the instruction table is compiled into: the
//! declaration of the instruction variants, an encoder and a decoder.

use vstd::prelude::*;
use crate::instruction_set::{defs_view, FieldView, InstrDef, InstrDefView};
use crate::text::{decimal_text, push_bytes, push_decimal, push_text, text};

verus! {

/// The texts that `part` gives for the first `n` of `items`, one after the other.
pub open spec fn joined<T>(items: Seq<T>, n: nat, part: spec_fn(T) -> Seq<u8>) -> Seq<u8>
    decreases n,
{
    if n == 0 {
        Seq::empty()
    } else {
        joined(items, (n - 1) as nat, part) + part(items[n - 1])
    }
}

/// The declaration of a field of a variant.
pub open spec fn enum_field_text(field: FieldView) -> Seq<u8> {
    field.name + text(": U<") + decimal_text(field.bits) + text(">,")
}

/// The declaration of the variant of a line.
pub open spec fn enum_variant_text(def: InstrDefView) -> Seq<u8> {
    if def.fields.len() == 0 {
        def.name + text(",")
    } else {
        def.name + text(" {") + joined(
            def.fields,
            def.fields.len(),
            |f: FieldView| enum_field_text(f),
        ) + text("},")
    }
}

/// The declaration of the instruction variants.
pub open spec fn enum_text(defs: Seq<InstrDefView>) -> Seq<u8> {
    text("#[derive(PartialEq, Debug)] pub enum Instruction {") + joined(
        defs,
        defs.len(),
        |d: InstrDefView| enum_variant_text(d),
    ) + text("}")
}

/// The name of a field in the pattern of a match arm.
pub open spec fn binding_text(field: FieldView) -> Seq<u8> {
    field.name + text(", ")
}

/// The statement that takes a field's operand under the field's letter.
pub open spec fn operand_text(field: FieldView) -> Seq<u8> {
    text("let ") + seq![field.symbol] + text(":u8 = ") + field.name + text(".into();")
}

/// The arm of the encoder for a line.
pub open spec fn encode_arm_text(def: InstrDefView) -> Seq<u8> {
    text("Instruction::") + def.name + (if def.fields.len() == 0 {
        Seq::empty()
    } else {
        text(" { ") + joined(def.fields, def.fields.len(), |f: FieldView| binding_text(f)) + text(
            "}",
        )
    }) + text(" => {") + joined(def.fields, def.fields.len(), |f: FieldView| operand_text(f))
        + text("bitpack!(\"") + def.pattern + text("\")") + text("},")
}

/// The encoder.
pub open spec fn encode_text(defs: Seq<InstrDefView>) -> Seq<u8> {
    text("#[bitmatch] pub fn encode_instruction(inst: Instruction) -> u8 {") + text(
        "match inst {",
    ) + joined(defs, defs.len(), |d: InstrDefView| encode_arm_text(d)) + text("}") + text("}")
}

/// The field of a variant that a match arm of the decoder builds.
pub open spec fn built_field_text(field: FieldView) -> Seq<u8> {
    field.name + text(": ") + seq![field.symbol] + text(".into(),")
}

/// The arm of the decoder for a line.
pub open spec fn decode_arm_text(def: InstrDefView) -> Seq<u8> {
    text("\"") + def.pattern + text("\" => Instruction::") + def.name + (if def.fields.len() == 0 {
        Seq::empty()
    } else {
        text(" { ") + joined(def.fields, def.fields.len(), |f: FieldView| built_field_text(f))
            + text("}")
    }) + text(",")
}

/// The decoder.
pub open spec fn decode_text(defs: Seq<InstrDefView>) -> Seq<u8> {
    text("#[bitmatch] pub fn decode_instruction(inst: U<INSTRUCTION_BITS>) -> Instruction {")
        + text("let converted: u8 = inst.into();") + text("#[bitmatch] match converted {") + joined(
        defs,
        defs.len(),
        |d: InstrDefView| decode_arm_text(d),
    ) + text("_ => Instruction::NOP,") + text("}") + text("}")
}

/// The whole program text: the variants, the encoder and the decoder, each
/// on a line of its own.
pub open spec fn program_text(defs: Seq<InstrDefView>) -> Seq<u8> {
    enum_text(defs) + seq![0x0Au8] + encode_text(defs) + seq![0x0Au8] + decode_text(defs)
}

/// Emits the declaration of the instruction variants.
pub fn gen_enum(parsed: &Vec<InstrDef>) -> (r: Vec<u8>)
    ensures
        r@ == enum_text(defs_view(parsed@)),
{
    let ghost defs = defs_view(parsed@);
    let ghost header = text("#[derive(PartialEq, Debug)] pub enum Instruction {");
    let mut out: Vec<u8> = Vec::new();
    push_text(&mut out, "#[derive(PartialEq, Debug)] pub enum Instruction {");
    let mut i: usize = 0;
    proof {
        assert(out@ =~= header + joined(defs, 0, |d: InstrDefView| enum_variant_text(d)));
    }
    while i < parsed.len()
        invariant
            i <= parsed@.len(),
            defs == defs_view(parsed@),
            out@ == header + joined(defs, i as nat, |d: InstrDefView| enum_variant_text(d)),
        decreases parsed@.len() - i,
    {
        let def = &parsed[i];
        let ghost before = out@;
        let ghost view = defs[i as int];
        proof {
            assert(view == def@);
        }
        push_bytes(&mut out, def.name.as_slice());
        if def.fields.len() == 0 {
            push_text(&mut out, ",");
        } else {
            push_text(&mut out, " {");
            let ghost opened = out@;
            let mut k: usize = 0;
            proof {
                assert(out@ =~= opened + joined(view.fields, 0, |f: FieldView| enum_field_text(f)));
            }
            while k < def.fields.len()
                invariant
                    k <= def.fields@.len(),
                    view == def@,
                    out@ == opened + joined(
                        view.fields,
                        k as nat,
                        |f: FieldView| enum_field_text(f),
                    ),
                decreases def.fields@.len() - k,
            {
                let field = &def.fields[k];
                let ghost at = out@;
                proof {
                    assert(view.fields[k as int] == field@);
                }
                push_bytes(&mut out, field.name.as_slice());
                push_text(&mut out, ": U<");
                push_decimal(&mut out, field.bits as usize);
                push_text(&mut out, ">,");
                proof {
                    assert(out@ =~= at + enum_field_text(field@));
                    assert(out@ =~= opened + joined(
                        view.fields,
                        (k + 1) as nat,
                        |f: FieldView| enum_field_text(f),
                    ));
                }
                k += 1;
            }
            push_text(&mut out, "},");
        }
        proof {
            assert(out@ =~= before + enum_variant_text(view));
            assert(out@ =~= header + joined(
                defs,
                (i + 1) as nat,
                |d: InstrDefView| enum_variant_text(d),
            ));
        }
        i += 1;
    }
    push_text(&mut out, "}");
    out
}

/// Appends the names of a line's fields as the pattern of a match arm binds them.
fn push_bindings(out: &mut Vec<u8>, def: &InstrDef)
    ensures
        final(out)@ == old(out)@ + joined(
            def@.fields,
            def@.fields.len(),
            |f: FieldView| binding_text(f),
        ),
{
    let mut k: usize = 0;
    proof {
        assert(out@ =~= old(out)@ + joined(def@.fields, 0, |f: FieldView| binding_text(f)));
    }
    while k < def.fields.len()
        invariant
            k <= def.fields@.len(),
            out@ == old(out)@ + joined(def@.fields, k as nat, |f: FieldView| binding_text(f)),
        decreases def.fields@.len() - k,
    {
        let field = &def.fields[k];
        let ghost at = out@;
        proof {
            assert(def@.fields[k as int] == field@);
        }
        push_bytes(out, field.name.as_slice());
        push_text(out, ", ");
        proof {
            assert(out@ =~= at + binding_text(field@));
            assert(out@ =~= old(out)@ + joined(
                def@.fields,
                (k + 1) as nat,
                |f: FieldView| binding_text(f),
            ));
        }
        k += 1;
    }
}

/// Appends the statements that take the operands of a line's fields.
fn push_operands(out: &mut Vec<u8>, def: &InstrDef)
    ensures
        final(out)@ == old(out)@ + joined(
            def@.fields,
            def@.fields.len(),
            |f: FieldView| operand_text(f),
        ),
{
    let mut k: usize = 0;
    proof {
        assert(out@ =~= old(out)@ + joined(def@.fields, 0, |f: FieldView| operand_text(f)));
    }
    while k < def.fields.len()
        invariant
            k <= def.fields@.len(),
            out@ == old(out)@ + joined(def@.fields, k as nat, |f: FieldView| operand_text(f)),
        decreases def.fields@.len() - k,
    {
        let field = &def.fields[k];
        let ghost at = out@;
        proof {
            assert(def@.fields[k as int] == field@);
        }
        push_text(out, "let ");
        out.push(field.symbol);
        push_text(out, ":u8 = ");
        push_bytes(out, field.name.as_slice());
        push_text(out, ".into();");
        proof {
            assert(out@ =~= at + operand_text(field@));
            assert(out@ =~= old(out)@ + joined(
                def@.fields,
                (k + 1) as nat,
                |f: FieldView| operand_text(f),
            ));
        }
        k += 1;
    }
}

/// Appends the fields of the variant that a match arm of the decoder builds.
fn push_built_fields(out: &mut Vec<u8>, def: &InstrDef)
    ensures
        final(out)@ == old(out)@ + joined(
            def@.fields,
            def@.fields.len(),
            |f: FieldView| built_field_text(f),
        ),
{
    let mut k: usize = 0;
    proof {
        assert(out@ =~= old(out)@ + joined(def@.fields, 0, |f: FieldView| built_field_text(f)));
    }
    while k < def.fields.len()
        invariant
            k <= def.fields@.len(),
            out@ == old(out)@ + joined(def@.fields, k as nat, |f: FieldView| built_field_text(f)),
        decreases def.fields@.len() - k,
    {
        let field = &def.fields[k];
        let ghost at = out@;
        proof {
            assert(def@.fields[k as int] == field@);
        }
        push_bytes(out, field.name.as_slice());
        push_text(out, ": ");
        out.push(field.symbol);
        push_text(out, ".into(),");
        proof {
            assert(out@ =~= at + built_field_text(field@));
            assert(out@ =~= old(out)@ + joined(
                def@.fields,
                (k + 1) as nat,
                |f: FieldView| built_field_text(f),
            ));
        }
        k += 1;
    }
}

/// Appends the arm of the encoder for a line.
fn push_encode_arm(out: &mut Vec<u8>, def: &InstrDef)
    ensures
        final(out)@ == old(out)@ + encode_arm_text(def@),
{
    push_text(out, "Instruction::");
    push_bytes(out, def.name.as_slice());
    if def.fields.len() != 0 {
        push_text(out, " { ");
        push_bindings(out, def);
        push_text(out, "}");
    }
    push_text(out, " => {");
    push_operands(out, def);
    push_text(out, "bitpack!(\"");
    push_bytes(out, def.pattern.as_slice());
    push_text(out, "\")");
    push_text(out, "},");
    proof {
        assert(out@ =~= old(out)@ + encode_arm_text(def@));
    }
}

/// Appends the arm of the decoder for a line.
fn push_decode_arm(out: &mut Vec<u8>, def: &InstrDef)
    ensures
        final(out)@ == old(out)@ + decode_arm_text(def@),
{
    push_text(out, "\"");
    push_bytes(out, def.pattern.as_slice());
    push_text(out, "\" => Instruction::");
    push_bytes(out, def.name.as_slice());
    if def.fields.len() != 0 {
        push_text(out, " { ");
        push_built_fields(out, def);
        push_text(out, "}");
    }
    push_text(out, ",");
    proof {
        assert(out@ =~= old(out)@ + decode_arm_text(def@));
    }
}

/// Emits the encoder.
pub fn gen_encode(parsed: &Vec<InstrDef>) -> (r: Vec<u8>)
    ensures
        r@ == encode_text(defs_view(parsed@)),
{
    let ghost defs = defs_view(parsed@);
    let ghost header = text("#[bitmatch] pub fn encode_instruction(inst: Instruction) -> u8 {")
        + text("match inst {");
    let mut out: Vec<u8> = Vec::new();
    push_text(&mut out, "#[bitmatch] pub fn encode_instruction(inst: Instruction) -> u8 {");
    push_text(&mut out, "match inst {");
    let mut i: usize = 0;
    proof {
        assert(out@ =~= header + joined(defs, 0, |d: InstrDefView| encode_arm_text(d)));
    }
    while i < parsed.len()
        invariant
            i <= parsed@.len(),
            defs == defs_view(parsed@),
            out@ == header + joined(defs, i as nat, |d: InstrDefView| encode_arm_text(d)),
        decreases parsed@.len() - i,
    {
        proof {
            assert(defs[i as int] == parsed@[i as int]@);
        }
        push_encode_arm(&mut out, &parsed[i]);
        proof {
            assert(out@ =~= header + joined(
                defs,
                (i + 1) as nat,
                |d: InstrDefView| encode_arm_text(d),
            ));
        }
        i += 1;
    }
    push_text(&mut out, "}");
    push_text(&mut out, "}");
    proof {
        assert(out@ =~= encode_text(defs));
    }
    out
}

/// Emits the decoder.
pub fn gen_decode(parsed: &Vec<InstrDef>) -> (r: Vec<u8>)
    ensures
        r@ == decode_text(defs_view(parsed@)),
{
    let ghost defs = defs_view(parsed@);
    let ghost header = text(
        "#[bitmatch] pub fn decode_instruction(inst: U<INSTRUCTION_BITS>) -> Instruction {",
    ) + text("let converted: u8 = inst.into();") + text("#[bitmatch] match converted {");
    let mut out: Vec<u8> = Vec::new();
    push_text(
        &mut out,
        "#[bitmatch] pub fn decode_instruction(inst: U<INSTRUCTION_BITS>) -> Instruction {",
    );
    push_text(&mut out, "let converted: u8 = inst.into();");
    push_text(&mut out, "#[bitmatch] match converted {");
    let mut i: usize = 0;
    proof {
        assert(out@ =~= header + joined(defs, 0, |d: InstrDefView| decode_arm_text(d)));
    }
    while i < parsed.len()
        invariant
            i <= parsed@.len(),
            defs == defs_view(parsed@),
            out@ == header + joined(defs, i as nat, |d: InstrDefView| decode_arm_text(d)),
        decreases parsed@.len() - i,
    {
        proof {
            assert(defs[i as int] == parsed@[i as int]@);
        }
        push_decode_arm(&mut out, &parsed[i]);
        proof {
            assert(out@ =~= header + joined(
                defs,
                (i + 1) as nat,
                |d: InstrDefView| decode_arm_text(d),
            ));
        }
        i += 1;
    }
    push_text(&mut out, "_ => Instruction::NOP,");
    push_text(&mut out, "}");
    push_text(&mut out, "}");
    proof {
        assert(out@ =~= decode_text(defs));
    }
    out
}

/// Emits the whole program text for a table: the variants, the encoder and
/// the decoder, each on a line of its own.
pub fn gen_program(parsed: &Vec<InstrDef>) -> (r: Vec<u8>)
    ensures
        r@ == program_text(defs_view(parsed@)),
{
    let mut out = gen_enum(parsed);
    let encode = gen_encode(parsed);
    let decode = gen_decode(parsed);
    out.push(0x0A);
    push_bytes(&mut out, encode.as_slice());
    out.push(0x0A);
    push_bytes(&mut out, decode.as_slice());
    proof {
        assert(out@ =~= program_text(defs_view(parsed@)));
    }
    out
}

} // verus!
