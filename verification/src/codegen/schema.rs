//! Layout of schema and tuple fields.

use vstd::prelude::*;
use crate::codegen::widths::{
    byte_width_fits, fixed_byte_width, fixed_scalar_width, length_fits, opt_usize, spec_fixed_byte_width,
    spec_fixed_scalar_width, spec_static_length, static_len_usize, tuple_length, type_static_length,
};
use crate::ir::{type_view, IrType};
use crate::text::str_chars;

verus! {

broadcast use vstd::std_specs::vec::group_vec_axioms;

/// Where a field sits inside its value.
#[derive(Debug, Clone)]
pub struct SchemaFieldLayout {
    pub index: usize,
    pub offset: usize,
    pub ty: IrType,
    pub fixed_size: Option<usize>,
    pub fixed_enum_size: Option<usize>,
}

/// A field's scalar width, or its enum's storage width.
pub fn layout_fixed_scalar_width(layout: &SchemaFieldLayout) -> (r: Option<usize>)
    ensures
        opt_usize(r) == (if spec_fixed_scalar_width(layout.ty, layout.fixed_size) is Some {
            spec_fixed_scalar_width(layout.ty, layout.fixed_size)
        } else {
            opt_usize(layout.fixed_enum_size)
        }),
{
    match fixed_scalar_width(&layout.ty, layout.fixed_size) {
        Some(w) => Some(w),
        None => layout.fixed_enum_size,
    }
}

/// A field's byte-block width, or its enum's storage width.
pub fn layout_fixed_byte_width(layout: &SchemaFieldLayout) -> (r: Option<usize>)
    requires
        byte_width_fits(layout.ty),
    ensures
        opt_usize(r) == (if spec_fixed_byte_width(layout.ty, layout.fixed_size) is Some {
            spec_fixed_byte_width(layout.ty, layout.fixed_size)
        } else {
            opt_usize(layout.fixed_enum_size)
        }),
{
    match fixed_byte_width(&layout.ty, layout.fixed_size) {
        Some(w) => Some(w),
        None => layout.fixed_enum_size,
    }
}

/// The value of a decimal field index, as `str::parse::<usize>` reads it:
/// an optional `+`, then at least one digit, within `usize`.
pub open spec fn spec_parse_index(s: Seq<char>) -> Option<int> {
    let start: int = if s.len() > 0 && s[0] == '+' { 1 } else { 0 };
    if start >= s.len() || !crate::assembler::syntax::all_digits(s, start, s.len() as int) {
        None
    } else {
        let v = crate::assembler::syntax::digits_value(s, start, s.len() as int);
        if v <= usize::MAX {
            Some(v)
        } else {
            None
        }
    }
}

pub fn parse_index(s: &str) -> (r: Option<usize>)
    ensures
        opt_usize(r) == spec_parse_index(s@),
{
    let c = str_chars(s);
    let start: usize = if c.len() > 0 && c[0] == '+' { 1 } else { 0 };
    if start >= c.len() {
        return None;
    }
    let mut v: u128 = 0;
    let mut big = false;
    let mut j = start;
    while j < c.len()
        invariant
            start <= j <= c@.len(),
            start < c@.len(),
            c@ == s@,
            start == (if c@.len() > 0 && c@[0] == '+' { 1usize } else { 0usize }),
            crate::assembler::syntax::all_digits(c@, start as int, j as int),
            !big ==> v as int == crate::assembler::syntax::digits_value(c@, start as int, j as int),
            big ==> crate::assembler::syntax::digits_value(c@, start as int, j as int) > usize::MAX,
            !big ==> v <= usize::MAX,
        decreases c@.len() - j,
    {
        let ch = c[j];
        if !('0' <= ch && ch <= '9') {
            assert(!crate::assembler::syntax::all_digits(c@, start as int, c@.len() as int));
            return None;
        }
        let d = (ch as u32 - 48) as u128;
        proof {
            assert(crate::assembler::syntax::digits_value(c@, start as int, j + 1) == crate::assembler::syntax::digits_value(
                c@, start as int, j as int) * 10 + (c@[j as int] as int - 48));
            if big {
                assert(crate::assembler::syntax::digits_value(c@, start as int, j as int) * 10 + (c@[j as int] as int - 48)
                    > usize::MAX) by (nonlinear_arith)
                    requires
                        crate::assembler::syntax::digits_value(c@, start as int, j as int) > usize::MAX,
                        0 <= c@[j as int] as int - 48,
                ;
            }
        }
        if !big {
            let nv = v * 10 + d;
            if nv > usize::MAX as u128 {
                big = true;
            } else {
                v = nv;
            }
        }
        j = j + 1;
    }
    if big {
        return None;
    }
    Some(v as usize)
}

/// The layout of field `field` of a tuple (or the byte array inside an
/// `Address` or `Hash`, field `0`).
pub open spec fn spec_aggregate_field(ty: IrType, field: Seq<char>) -> Option<(int, int, Option<int>)> {
    match ty {
        IrType::Tuple(items) => match spec_parse_index(field) {
            Some(i) => if i < items@.len() {
                match tuple_length(items@, i) {
                    Some(off) => Some((i, off, spec_static_length(items@[i]))),
                    None => None,
                }
            } else {
                None
            },
            None => None,
        },
        IrType::Address => if field == "0"@ { Some((0, 0, Some(32))) } else { None },
        IrType::Hash => if field == "0"@ { Some((0, 0, Some(32))) } else { None },
        _ => None,
    }
}

pub fn aggregate_field_layout(ty: &IrType, field: &str) -> (r: Option<SchemaFieldLayout>)
    requires
        length_fits(*ty),
    ensures
        r is Some <==> spec_aggregate_field(*ty, field@) is Some,
        r matches Some(l) ==> ({
            let (i, off, size) = spec_aggregate_field(*ty, field@)->0;
            &&& l.index == i && l.offset == off && opt_usize(l.fixed_size) == size && l.fixed_enum_size is None
            &&& (ty matches IrType::Tuple(items) ==> type_view(l.ty) == type_view(items@[i]))
            &&& (!(*ty is Tuple) ==> l.ty == IrType::Array(Box::new(IrType::U8), 32))
        }),
{
    match ty {
        IrType::Tuple(items) => {
            let index = match parse_index(field) {
                Some(i) => i,
                None => return None,
            };
            if index >= items.len() {
                return None;
            }
            let mut off: usize = 0;
            let mut k: usize = 0;
            while k < index
                invariant
                    k <= index < items@.len(),
                    length_fits(*ty),
                    *ty == IrType::Tuple(*items),
                    spec_parse_index(field@) == Some(index as int),
                    tuple_length(items@, k as int) == Some(off as int),
                decreases index - k,
            {
                proof {
                    crate::codegen::widths::lemma_tuple_fits_prefix_pub(items@, k as int + 1, items@.len() as int);
                    crate::codegen::widths::lemma_static_length_nonneg_pub(items@[k as int]);
                }
                match type_static_length(&items[k]) {
                    Some(l) => {
                        off = off + l;
                    },
                    None => {
                        proof {
                            crate::codegen::widths::lemma_tuple_length_none_pub(items@, k as int + 1, index as int);
                        }
                        return None;
                    },
                }
                k = k + 1;
            }
            proof {
                crate::codegen::widths::lemma_tuple_fits_prefix_pub(items@, index as int + 1, items@.len() as int);
            }
            let field_ty = items[index].clone();
            let fixed_size = type_static_length(&items[index]);
            Some(SchemaFieldLayout { index, offset: off, ty: field_ty, fixed_size, fixed_enum_size: None })
        },
        IrType::Address | IrType::Hash => {
            let c = str_chars(field);
            if c.len() == 1 && c[0] == '0' {
                assert(c@ =~= "0"@) by {
                    reveal_strlit("0");
                }
                Some(SchemaFieldLayout {
                    index: 0,
                    offset: 0,
                    ty: IrType::Array(Box::new(IrType::U8), 32),
                    fixed_size: Some(32),
                    fixed_enum_size: None,
                })
            } else {
                proof {
                    reveal_strlit("0");
                }
                None
            }
        },
        _ => None,
    }
}

/// The type of field `field` of a tuple return value.
pub fn tuple_return_field_type(ty: &IrType, field: &str) -> (r: Option<IrType>)
    ensures
        r is Some <==> (ty matches IrType::Tuple(items) && spec_parse_index(field@) matches Some(i) && i < items@.len()),
        r matches Some(t) ==> (ty matches IrType::Tuple(items) && type_view(t) == type_view(items@[spec_parse_index(field@)->0])),
{
    match ty {
        IrType::Tuple(items) => {
            let index = match parse_index(field) {
                Some(i) => i,
                None => return None,
            };
            if index < items.len() {
                Some(items[index].clone())
            } else {
                None
            }
        },
        _ => None,
    }
}

} // verus!
