//! The disassembler: maps the instruction encoding to mnemonic text. It is
//! driven by the same decoding as the interpreter, so the two can never
//! disagree on the pattern set or on operand field extraction.

use vstd::prelude::*;

verus! {

use crate::chip8::{decode, decode_instr, Instr};
use vstd::string::StringExecFns;

/// The decimal digit character for a value below ten.
pub open spec fn dec_digit(d: int) -> char {
    if d == 0 {
        '0'
    } else if d == 1 {
        '1'
    } else if d == 2 {
        '2'
    } else if d == 3 {
        '3'
    } else if d == 4 {
        '4'
    } else if d == 5 {
        '5'
    } else if d == 6 {
        '6'
    } else if d == 7 {
        '7'
    } else if d == 8 {
        '8'
    } else {
        '9'
    }
}

/// The decimal digits of a number, most significant first, with no sign and
/// no leading zeros.
pub open spec fn dec_digits(n: nat) -> Seq<char>
    decreases n,
{
    if n < 10 {
        seq![dec_digit(n as int)]
    } else {
        dec_digits(n / 10) + seq![dec_digit((n % 10) as int)]
    }
}

/// The uppercase hexadecimal digit character for a value below sixteen.
pub open spec fn hex_digit(d: int) -> char {
    if d == 10 {
        'A'
    } else if d == 11 {
        'B'
    } else if d == 12 {
        'C'
    } else if d == 13 {
        'D'
    } else if d == 14 {
        'E'
    } else if d == 15 {
        'F'
    } else {
        dec_digit(d)
    }
}

/// The uppercase hexadecimal digits of a number, most significant first,
/// with no leading zeros.
pub open spec fn hex_digits(n: nat) -> Seq<char>
    decreases n,
{
    if n < 16 {
        seq![hex_digit(n as int)]
    } else {
        hex_digits(n / 16) + seq![hex_digit((n % 16) as int)]
    }
}

fn append_hex_digit(out: &mut String, d: u8)
    requires
        d < 16,
    ensures
        final(out)@ == old(out)@ + seq![hex_digit(d as int)],
{
    if d == 0 {
        out.append("0");
        proof {
            reveal_strlit("0");
            assert("0"@ =~= seq!['0']);
        }
    } else if d == 1 {
        out.append("1");
        proof {
            reveal_strlit("1");
            assert("1"@ =~= seq!['1']);
        }
    } else if d == 2 {
        out.append("2");
        proof {
            reveal_strlit("2");
            assert("2"@ =~= seq!['2']);
        }
    } else if d == 3 {
        out.append("3");
        proof {
            reveal_strlit("3");
            assert("3"@ =~= seq!['3']);
        }
    } else if d == 4 {
        out.append("4");
        proof {
            reveal_strlit("4");
            assert("4"@ =~= seq!['4']);
        }
    } else if d == 5 {
        out.append("5");
        proof {
            reveal_strlit("5");
            assert("5"@ =~= seq!['5']);
        }
    } else if d == 6 {
        out.append("6");
        proof {
            reveal_strlit("6");
            assert("6"@ =~= seq!['6']);
        }
    } else if d == 7 {
        out.append("7");
        proof {
            reveal_strlit("7");
            assert("7"@ =~= seq!['7']);
        }
    } else if d == 8 {
        out.append("8");
        proof {
            reveal_strlit("8");
            assert("8"@ =~= seq!['8']);
        }
    } else if d == 9 {
        out.append("9");
        proof {
            reveal_strlit("9");
            assert("9"@ =~= seq!['9']);
        }
    } else if d == 10 {
        out.append("A");
        proof {
            reveal_strlit("A");
            assert("A"@ =~= seq!['A']);
        }
    } else if d == 11 {
        out.append("B");
        proof {
            reveal_strlit("B");
            assert("B"@ =~= seq!['B']);
        }
    } else if d == 12 {
        out.append("C");
        proof {
            reveal_strlit("C");
            assert("C"@ =~= seq!['C']);
        }
    } else if d == 13 {
        out.append("D");
        proof {
            reveal_strlit("D");
            assert("D"@ =~= seq!['D']);
        }
    } else if d == 14 {
        out.append("E");
        proof {
            reveal_strlit("E");
            assert("E"@ =~= seq!['E']);
        }
    } else {
        out.append("F");
        proof {
            reveal_strlit("F");
            assert("F"@ =~= seq!['F']);
        }
    }
}

fn push_dec(out: &mut String, n: u16)
    ensures
        final(out)@ == old(out)@ + dec_digits(n as nat),
    decreases n,
{
    if n >= 10 {
        push_dec(out, n / 10);
        append_hex_digit(out, (n % 10) as u8);
        proof {
            assert(out@ =~= old(out)@ + dec_digits(n as nat));
        }
    } else {
        append_hex_digit(out, n as u8);
        proof {
            assert(out@ =~= old(out)@ + dec_digits(n as nat));
        }
    }
}

fn push_hex(out: &mut String, n: u16)
    ensures
        final(out)@ == old(out)@ + hex_digits(n as nat),
    decreases n,
{
    if n >= 16 {
        push_hex(out, n / 16);
        append_hex_digit(out, (n % 16) as u8);
        proof {
            assert(out@ =~= old(out)@ + hex_digits(n as nat));
        }
    } else {
        append_hex_digit(out, n as u8);
        proof {
            assert(out@ =~= old(out)@ + hex_digits(n as nat));
        }
    }
}

/// The decimal digits of the value, most significant first, no sign, no
/// leading zeros.
fn dec_string(v: u16) -> (r: String)
    ensures
        r@ == dec_digits(v as nat),
{
    let mut out = String::new();
    proof {
        assert(out@ =~= Seq::<char>::empty());
    }
    push_dec(&mut out, v);
    proof {
        assert(out@ =~= dec_digits(v as nat));
    }
    out
}

/// The uppercase hexadecimal digits of the value, most significant first, no
/// leading zeros.
fn hex_string(v: u16) -> (r: String)
    ensures
        r@ == hex_digits(v as nat),
{
    let mut out = String::new();
    proof {
        assert(out@ =~= Seq::<char>::empty());
    }
    push_hex(&mut out, v);
    proof {
        assert(out@ =~= hex_digits(v as nat));
    }
    out
}

/// The mnemonic pattern of an instruction, with operand fields still written
/// as the placeholder letters of the encoding; an unrecognized word is shown
/// as its hexadecimal digits.
pub open spec fn spec_template(instr: Instr) -> Seq<char> {
    match instr {
        Instr::Cls => "CLS"@,
        Instr::Ret => "RET"@,
        Instr::Jp(_) => "JP nnn"@,
        Instr::Call(_) => "CALL nnn"@,
        Instr::SeByte(_, _) => "SE Vx, kk"@,
        Instr::SneByte(_, _) => "SNE Vx, kk"@,
        Instr::SeReg(_, _) => "SE Vx, Vy"@,
        Instr::LdByte(_, _) => "LD Vx, kk"@,
        Instr::AddByte(_, _) => "ADD Vx, kk"@,
        Instr::LdReg(_, _) => "LD Vx, Vy"@,
        Instr::OrReg(_, _) => "OR Vx, Vy"@,
        Instr::AndReg(_, _) => "AND Vx, Vy"@,
        Instr::XorReg(_, _) => "XOR Vx, Vy"@,
        Instr::AddReg(_, _) => "ADD Vx, Vy"@,
        Instr::SubReg(_, _) => "SUB Vx, Vy"@,
        Instr::ShrReg(_, _) => "SHR Vx, Vy"@,
        Instr::SubnReg(_, _) => "SUBN Vx, Vy"@,
        Instr::ShlReg(_, _) => "SHL Vx"@,
        Instr::SneReg(_, _) => "SNE Vx, Vy"@,
        Instr::LdI(_) => "LD I, nnn"@,
        Instr::JpV0(_) => "JP V0, nnn"@,
        Instr::Rnd(_, _) => "RND Vx, kk"@,
        Instr::Drw(_, _, _) => "DRW Vx, Vy, n"@,
        Instr::Skp(_) => "SKP Vx"@,
        Instr::Sknp(_) => "SKNP Vx"@,
        Instr::LdVxDt(_) => "LD Vx, DT"@,
        Instr::LdVxKey(_) => "LD Vx, K"@,
        Instr::LdDtVx(_) => "LD DT, Vx"@,
        Instr::LdStVx(_) => "LD ST, Vx"@,
        Instr::AddIVx(_) => "ADD I, Vx"@,
        Instr::LdFontVx(_) => "LD F, Vx"@,
        Instr::LdBcd(_) => "LD B, Vx"@,
        Instr::LdMemVx(_) => "LD [I], Vx"@,
        Instr::LdVxMem(_) => "LD Vx, [I]"@,
        Instr::Unknown(w) => hex_digits(w as nat),
    }
}

/// The mnemonic text of an instruction, with operand fields written as
/// decimal numbers in place of the placeholder letters of its pattern.
pub open spec fn spec_translation(instr: Instr) -> Seq<char> {
    match instr {
        Instr::Cls => "CLS"@,
        Instr::Ret => "RET"@,
        Instr::Jp(nnn) => "JP "@ + dec_digits(nnn as nat),
        Instr::Call(nnn) => "CALL "@ + dec_digits(nnn as nat),
        Instr::SeByte(x, kk) => "SE V"@ + dec_digits(x as nat) + ", "@ + dec_digits(kk as nat),
        Instr::SneByte(x, kk) => "SNE V"@ + dec_digits(x as nat) + ", "@ + dec_digits(kk as nat),
        Instr::SeReg(x, y) => "SE V"@ + dec_digits(x as nat) + ", V"@ + dec_digits(y as nat),
        Instr::LdByte(x, kk) => "LD V"@ + dec_digits(x as nat) + ", "@ + dec_digits(kk as nat),
        Instr::AddByte(x, kk) => "ADD V"@ + dec_digits(x as nat) + ", "@ + dec_digits(kk as nat),
        Instr::LdReg(x, y) => "LD V"@ + dec_digits(x as nat) + ", V"@ + dec_digits(y as nat),
        Instr::OrReg(x, y) => "OR V"@ + dec_digits(x as nat) + ", V"@ + dec_digits(y as nat),
        Instr::AndReg(x, y) => "AND V"@ + dec_digits(x as nat) + ", V"@ + dec_digits(y as nat),
        Instr::XorReg(x, y) => "XOR V"@ + dec_digits(x as nat) + ", V"@ + dec_digits(y as nat),
        Instr::AddReg(x, y) => "ADD V"@ + dec_digits(x as nat) + ", V"@ + dec_digits(y as nat),
        Instr::SubReg(x, y) => "SUB V"@ + dec_digits(x as nat) + ", V"@ + dec_digits(y as nat),
        Instr::ShrReg(x, y) => "SHR V"@ + dec_digits(x as nat) + ", V"@ + dec_digits(y as nat),
        Instr::SubnReg(x, y) => "SUBN V"@ + dec_digits(x as nat) + ", V"@ + dec_digits(y as nat),
        Instr::ShlReg(x, _y) => "SHL V"@ + dec_digits(x as nat),
        Instr::SneReg(x, y) => "SNE V"@ + dec_digits(x as nat) + ", V"@ + dec_digits(y as nat),
        Instr::LdI(nnn) => "LD I, "@ + dec_digits(nnn as nat),
        Instr::JpV0(nnn) => "JP V0, "@ + dec_digits(nnn as nat),
        Instr::Rnd(x, kk) => "RND V"@ + dec_digits(x as nat) + ", "@ + dec_digits(kk as nat),
        Instr::Drw(x, y, n) => "DRW V"@ + dec_digits(x as nat) + ", V"@ + dec_digits(y as nat)
            + ", "@ + dec_digits(n as nat),
        Instr::Skp(x) => "SKP V"@ + dec_digits(x as nat),
        Instr::Sknp(x) => "SKNP V"@ + dec_digits(x as nat),
        Instr::LdVxDt(x) => "LD V"@ + dec_digits(x as nat) + ", DT"@,
        Instr::LdVxKey(x) => "LD V"@ + dec_digits(x as nat) + ", K"@,
        Instr::LdDtVx(x) => "LD DT, V"@ + dec_digits(x as nat),
        Instr::LdStVx(x) => "LD ST, V"@ + dec_digits(x as nat),
        Instr::AddIVx(x) => "ADD I, V"@ + dec_digits(x as nat),
        Instr::LdFontVx(x) => "LD F, V"@ + dec_digits(x as nat),
        Instr::LdBcd(x) => "LD B, V"@ + dec_digits(x as nat),
        Instr::LdMemVx(x) => "LD [I], V"@ + dec_digits(x as nat),
        Instr::LdVxMem(x) => "LD V"@ + dec_digits(x as nat) + ", [I]"@,
        Instr::Unknown(w) => hex_digits(w as nat),
    }
}

/// The mnemonic pattern for an instruction word, operand fields left as
/// placeholder letters.
pub fn get_opcode_structure(opcode: u16) -> (r: String)
    ensures
        r@ == spec_template(decode(opcode)),
{
    match decode_instr(opcode) {
        Instr::Cls => String::from_str("CLS"),
        Instr::Ret => String::from_str("RET"),
        Instr::Jp(_) => String::from_str("JP nnn"),
        Instr::Call(_) => String::from_str("CALL nnn"),
        Instr::SeByte(_, _) => String::from_str("SE Vx, kk"),
        Instr::SneByte(_, _) => String::from_str("SNE Vx, kk"),
        Instr::SeReg(_, _) => String::from_str("SE Vx, Vy"),
        Instr::LdByte(_, _) => String::from_str("LD Vx, kk"),
        Instr::AddByte(_, _) => String::from_str("ADD Vx, kk"),
        Instr::LdReg(_, _) => String::from_str("LD Vx, Vy"),
        Instr::OrReg(_, _) => String::from_str("OR Vx, Vy"),
        Instr::AndReg(_, _) => String::from_str("AND Vx, Vy"),
        Instr::XorReg(_, _) => String::from_str("XOR Vx, Vy"),
        Instr::AddReg(_, _) => String::from_str("ADD Vx, Vy"),
        Instr::SubReg(_, _) => String::from_str("SUB Vx, Vy"),
        Instr::ShrReg(_, _) => String::from_str("SHR Vx, Vy"),
        Instr::SubnReg(_, _) => String::from_str("SUBN Vx, Vy"),
        Instr::ShlReg(_, _) => String::from_str("SHL Vx"),
        Instr::SneReg(_, _) => String::from_str("SNE Vx, Vy"),
        Instr::LdI(_) => String::from_str("LD I, nnn"),
        Instr::JpV0(_) => String::from_str("JP V0, nnn"),
        Instr::Rnd(_, _) => String::from_str("RND Vx, kk"),
        Instr::Drw(_, _, _) => String::from_str("DRW Vx, Vy, n"),
        Instr::Skp(_) => String::from_str("SKP Vx"),
        Instr::Sknp(_) => String::from_str("SKNP Vx"),
        Instr::LdVxDt(_) => String::from_str("LD Vx, DT"),
        Instr::LdVxKey(_) => String::from_str("LD Vx, K"),
        Instr::LdDtVx(_) => String::from_str("LD DT, Vx"),
        Instr::LdStVx(_) => String::from_str("LD ST, Vx"),
        Instr::AddIVx(_) => String::from_str("ADD I, Vx"),
        Instr::LdFontVx(_) => String::from_str("LD F, Vx"),
        Instr::LdBcd(_) => String::from_str("LD B, Vx"),
        Instr::LdMemVx(_) => String::from_str("LD [I], Vx"),
        Instr::LdVxMem(_) => String::from_str("LD Vx, [I]"),
        Instr::Unknown(w) => hex_string(w),
    }
}

fn reg_pair(head: &str, x: u8, mid: &str, y: u8) -> (r: String)
    ensures
        r@ == head@ + dec_digits(x as nat) + mid@ + dec_digits(y as nat),
{
    let mut out = String::from_str(head);
    out.append(dec_string(x as u16).as_str());
    out.append(mid);
    out.append(dec_string(y as u16).as_str());
    out
}

fn reg_single(head: &str, x: u8, tail: &str) -> (r: String)
    ensures
        r@ == head@ + dec_digits(x as nat) + tail@,
{
    let mut out = String::from_str(head);
    out.append(dec_string(x as u16).as_str());
    out.append(tail);
    out
}

fn reg_only(head: &str, x: u8) -> (r: String)
    ensures
        r@ == head@ + dec_digits(x as nat),
{
    let mut out = String::from_str(head);
    out.append(dec_string(x as u16).as_str());
    out
}

fn addr_single(head: &str, nnn: u16) -> (r: String)
    ensures
        r@ == head@ + dec_digits(nnn as nat),
{
    let mut out = String::from_str(head);
    out.append(dec_string(nnn).as_str());
    out
}

/// The mnemonic text for an instruction word, operand fields written in
/// decimal.
pub fn translate_opcode(opcode: u16) -> (r: String)
    ensures
        r@ == spec_translation(decode(opcode)),
{
    match decode_instr(opcode) {
        Instr::Cls => String::from_str("CLS"),
        Instr::Ret => String::from_str("RET"),
        Instr::Jp(nnn) => addr_single("JP ", nnn),
        Instr::Call(nnn) => addr_single("CALL ", nnn),
        Instr::SeByte(x, kk) => reg_pair("SE V", x, ", ", kk),
        Instr::SneByte(x, kk) => reg_pair("SNE V", x, ", ", kk),
        Instr::SeReg(x, y) => reg_pair("SE V", x, ", V", y),
        Instr::LdByte(x, kk) => reg_pair("LD V", x, ", ", kk),
        Instr::AddByte(x, kk) => reg_pair("ADD V", x, ", ", kk),
        Instr::LdReg(x, y) => reg_pair("LD V", x, ", V", y),
        Instr::OrReg(x, y) => reg_pair("OR V", x, ", V", y),
        Instr::AndReg(x, y) => reg_pair("AND V", x, ", V", y),
        Instr::XorReg(x, y) => reg_pair("XOR V", x, ", V", y),
        Instr::AddReg(x, y) => reg_pair("ADD V", x, ", V", y),
        Instr::SubReg(x, y) => reg_pair("SUB V", x, ", V", y),
        Instr::ShrReg(x, y) => reg_pair("SHR V", x, ", V", y),
        Instr::SubnReg(x, y) => reg_pair("SUBN V", x, ", V", y),
        Instr::ShlReg(x, _y) => reg_only("SHL V", x),
        Instr::SneReg(x, y) => reg_pair("SNE V", x, ", V", y),
        Instr::LdI(nnn) => addr_single("LD I, ", nnn),
        Instr::JpV0(nnn) => addr_single("JP V0, ", nnn),
        Instr::Rnd(x, kk) => reg_pair("RND V", x, ", ", kk),
        Instr::Drw(x, y, n) => {
            let mut out = reg_pair("DRW V", x, ", V", y);
            out.append(", ");
            out.append(dec_string(n as u16).as_str());
            out
        },
        Instr::Skp(x) => reg_only("SKP V", x),
        Instr::Sknp(x) => reg_only("SKNP V", x),
        Instr::LdVxDt(x) => reg_single("LD V", x, ", DT"),
        Instr::LdVxKey(x) => reg_single("LD V", x, ", K"),
        Instr::LdDtVx(x) => reg_only("LD DT, V", x),
        Instr::LdStVx(x) => reg_only("LD ST, V", x),
        Instr::AddIVx(x) => reg_only("ADD I, V", x),
        Instr::LdFontVx(x) => reg_only("LD F, V", x),
        Instr::LdBcd(x) => reg_only("LD B, V", x),
        Instr::LdMemVx(x) => reg_only("LD [I], V", x),
        Instr::LdVxMem(x) => reg_single("LD V", x, ", [I]"),
        Instr::Unknown(w) => hex_string(w),
    }
}

/// Disassembles a program image: each consecutive big-endian byte pair
/// becomes one line of mnemonic text, in order; a trailing odd byte is
/// ignored.
pub fn translate_program(rom: &Vec<u8>) -> (r: Vec<String>)
    ensures
        r@.len() == rom@.len() / 2,
        forall|j: int|
            0 <= j < r@.len() ==> r@[j]@ == spec_translation(
                decode(((rom@[2 * j] as u16) << 8) | (rom@[2 * j + 1] as u16)),
            ),
{
    let mut out: Vec<String> = Vec::new();
    let mut k: usize = 0;
    while k + 1 < rom.len()
        invariant
            k == 2 * out@.len(),
            k <= rom@.len(),
            forall|j: int|
                0 <= j < out@.len() ==> out@[j]@ == spec_translation(
                    decode(((rom@[2 * j] as u16) << 8) | (rom@[2 * j + 1] as u16)),
                ),
        decreases rom@.len() - k,
    {
        let opcode: u16 = ((rom[k] as u16) << 8) | (rom[k + 1] as u16);
        let line = translate_opcode(opcode);
        out.push(line);
        k = k + 2;
    }
    proof {
        if rom@.len() % 2 == 0 {
            assert(k == rom@.len());
        } else {
            assert(k == rom@.len() - 1);
        }
    }
    out
}

} // verus!
