//! The textual form of a type, as the IR assembly writes it: `i32`,
//! `float`, `ptr addrspace(1)`, `<4 x i8>`, `[2 x double]`.

use vstd::prelude::*;
use crate::ir::{Module, TypeId, TypeData, FloatKind, StructBody};

verus! {

/// The decimal digit `d`.
pub open spec fn digit_char(d: nat) -> char {
    if d == 0 { '0' } else if d == 1 { '1' } else if d == 2 { '2' } else if d == 3 { '3' } else if d == 4 { '4' }
    else if d == 5 { '5' } else if d == 6 { '6' } else if d == 7 { '7' } else if d == 8 { '8' } else { '9' }
}

/// `n` in decimal, without leading zeros.
pub open spec fn decimal(n: nat) -> Seq<char>
    decreases n,
{
    if n < 10 {
        seq![digit_char(n)]
    } else {
        decimal(n / 10).push(digit_char(n % 10))
    }
}

/// The name of a floating-point format.
pub open spec fn float_text(k: FloatKind) -> Seq<char> {
    match k {
        FloatKind::Half => "half"@,
        FloatKind::BFloat => "bfloat"@,
        FloatKind::Float => "float"@,
        FloatKind::Double => "double"@,
        FloatKind::X86Fp80 => "x86_fp80"@,
        FloatKind::Fp128 => "fp128"@,
        FloatKind::PpcFp128 => "ppc_fp128"@,
    }
}

/// The textual form of the type `t` among `types` (whose element types
/// come before them).
pub open spec fn type_text(types: Seq<TypeData>, structs: Seq<StructBody>, t: TypeId) -> Seq<char>
    decreases t.0,
{
    match types[t.0 as int] {
        TypeData::Void => "void"@,
        TypeData::Label => "label"@,
        TypeData::Token => "token"@,
        TypeData::Integer { bits } => seq!['i'] + decimal(bits as nat),
        TypeData::Float { kind } => float_text(kind),
        TypeData::Pointer { addr_space } => if addr_space == 0 {
            "ptr"@
        } else {
            "ptr addrspace("@ + decimal(addr_space as nat) + ")"@
        },
        TypeData::FixedVector { elem, n } => if elem.0 < t.0 {
            "<"@ + decimal(n as nat) + " x "@ + type_text(types, structs, elem) + ">"@
        } else {
            "<>"@
        },
        TypeData::Array { elem, n } => if elem.0 < t.0 {
            "["@ + decimal(n as nat) + " x "@ + type_text(types, structs, elem) + "]"@
        } else {
            "[]"@
        },
        TypeData::Struct { body } => seq!['%'] + structs[body as int].name@,
    }
}

/// The one-character text of the decimal digit `d`.
fn digit_str(d: u64) -> (r: &'static str)
    requires
        d < 10,
    ensures
        r@ == seq![digit_char(d as nat)],
{
    proof {
        reveal_strlit("0");
        reveal_strlit("1");
        reveal_strlit("2");
        reveal_strlit("3");
        reveal_strlit("4");
        reveal_strlit("5");
        reveal_strlit("6");
        reveal_strlit("7");
        reveal_strlit("8");
        reveal_strlit("9");
    }
    if d == 0 {
        "0"
    } else if d == 1 {
        "1"
    } else if d == 2 {
        "2"
    } else if d == 3 {
        "3"
    } else if d == 4 {
        "4"
    } else if d == 5 {
        "5"
    } else if d == 6 {
        "6"
    } else if d == 7 {
        "7"
    } else if d == 8 {
        "8"
    } else {
        "9"
    }
}

/// Appends `n` in decimal to `s`.
fn push_decimal(s: &mut String, n: u64)
    ensures
        final(s)@ == old(s)@ + decimal(n as nat),
    decreases n,
{
    if n >= 10 {
        push_decimal(s, n / 10);
    }
    s.append(digit_str(n % 10));
    proof {
        if n >= 10 {
            assert(decimal(n as nat) == decimal((n / 10) as nat).push(digit_char((n % 10) as nat)));
        }
    }
    assert(final(s)@ =~= old(s)@ + decimal(n as nat)) by {
        if n < 10 {
            assert(n % 10 == n);
        }
    }
}

/// Appends the name of a floating-point format to `s`.
fn push_float_text(s: &mut String, k: FloatKind)
    ensures
        final(s)@ == old(s)@ + float_text(k),
{
    match k {
        FloatKind::Half => s.append("half"),
        FloatKind::BFloat => s.append("bfloat"),
        FloatKind::Float => s.append("float"),
        FloatKind::Double => s.append("double"),
        FloatKind::X86Fp80 => s.append("x86_fp80"),
        FloatKind::Fp128 => s.append("fp128"),
        FloatKind::PpcFp128 => s.append("ppc_fp128"),
    }
}

/// Appends the textual form of the type `t` to `s`.
fn push_type_text(m: &Module, s: &mut String, t: TypeId)
    requires
        m.wf(),
        m.valid_type(t),
    ensures
        final(s)@ == old(s)@ + type_text(m.types(), m.structs(), t),
    decreases t.0,
{
    proof {
        assert(crate::ir::type_refs_below(m.types()[t.0 as int], t.0 as int));
    }
    match m.type_data(t) {
        TypeData::Void => s.append("void"),
        TypeData::Label => s.append("label"),
        TypeData::Token => s.append("token"),
        TypeData::Integer { bits } => {
            s.append("i");
            proof { reveal_strlit("i"); }
            push_decimal(s, bits as u64);
            assert(final(s)@ =~= old(s)@ + type_text(m.types(), m.structs(), t));
        },
        TypeData::Float { kind } => push_float_text(s, kind),
        TypeData::Pointer { addr_space } => {
            if addr_space == 0 {
                s.append("ptr");
            } else {
                s.append("ptr addrspace(");
                push_decimal(s, addr_space as u64);
                s.append(")");
                assert(final(s)@ =~= old(s)@ + type_text(m.types(), m.structs(), t));
            }
        },
        TypeData::FixedVector { elem, n } => {
            s.append("<");
            push_decimal(s, n as u64);
            s.append(" x ");
            push_type_text(m, s, elem);
            s.append(">");
            assert(final(s)@ =~= old(s)@ + type_text(m.types(), m.structs(), t));
        },
        TypeData::Array { elem, n } => {
            s.append("[");
            push_decimal(s, n);
            s.append(" x ");
            push_type_text(m, s, elem);
            s.append("]");
            assert(final(s)@ =~= old(s)@ + type_text(m.types(), m.structs(), t));
        },
        TypeData::Struct { body } => {
            proof {
                assert(crate::ir::struct_refs_ok(m.types()[t.0 as int], t.0 as int, m.structs()));
            }
            s.append("%");
            proof { reveal_strlit("%"); }
            let name = m.struct_name(body);
            s.append(name.as_str());
            assert(final(s)@ =~= old(s)@ + type_text(m.types(), m.structs(), t));
        },
    }
}

/// The textual form of the type `t`.
pub fn type_string(m: &Module, t: TypeId) -> (r: String)
    requires
        m.wf(),
        m.valid_type(t),
    ensures
        r@ == type_text(m.types(), m.structs(), t),
{
    let mut s = String::new();
    push_type_text(m, &mut s, t);
    assert(s@ =~= type_text(m.types(), m.structs(), t));
    s
}

} // verus!
