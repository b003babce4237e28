//! Static byte widths of IR types, operands and constants, as the code
//! generator lays them out.

use vstd::prelude::*;
use crate::assembler::syntax::{is_digit, trim, trim_chars};
use crate::ir::{IrConst, IrOperand, IrType, IrVar};
use crate::names::NameMap;
use crate::text::{chars_eq_str, chars_slice, str_chars, string_from_chars};

verus! {

broadcast use vstd::std_specs::vec::group_vec_axioms;

/// Width of a scalar whose declared size matches its type.
pub open spec fn spec_fixed_scalar_width(ty: IrType, fixed_size: Option<usize>) -> Option<int> {
    match (ty, fixed_size) {
        (IrType::Bool, Some(1usize)) => Some(1),
        (IrType::U8, Some(1usize)) => Some(1),
        (IrType::U16, Some(2usize)) => Some(2),
        (IrType::U32, Some(4usize)) => Some(4),
        (IrType::U64, Some(8usize)) => Some(8),
        _ => None,
    }
}

pub open spec fn opt_usize(r: Option<usize>) -> Option<int> {
    match r {
        Some(v) => Some(v as int),
        None => None,
    }
}

pub fn fixed_scalar_width(ty: &IrType, fixed_size: Option<usize>) -> (r: Option<usize>)
    ensures
        opt_usize(r) == spec_fixed_scalar_width(*ty, fixed_size),
{
    match (ty, fixed_size) {
        (IrType::Bool, Some(1)) | (IrType::U8, Some(1)) => Some(1),
        (IrType::U16, Some(2)) => Some(2),
        (IrType::U32, Some(4)) => Some(4),
        (IrType::U64, Some(8)) => Some(8),
        _ => None,
    }
}

/// Fixed scalar widths that fit one 64-bit register.
pub fn fixed_register_width(ty: &IrType, fixed_size: Option<usize>) -> (r: Option<usize>)
    ensures
        opt_usize(r) == (match spec_fixed_scalar_width(*ty, fixed_size) {
            Some(w) => if w <= 8 { Some(w) } else { None },
            None => None,
        }),
{
    match fixed_scalar_width(ty, fixed_size) {
        Some(w) => if w <= 8 { Some(w) } else { None },
        None => None,
    }
}

/// The byte length of a type laid out inline, when it is static.
pub open spec fn spec_static_length(ty: IrType) -> Option<int>
    decreases ty,
{
    match ty {
        IrType::Bool => Some(1),
        IrType::U8 => Some(1),
        IrType::U16 => Some(2),
        IrType::U32 => Some(4),
        IrType::U64 => Some(8),
        IrType::U128 => Some(16),
        IrType::Address => Some(32),
        IrType::Hash => Some(32),
        IrType::Array(inner, len) => match spec_static_length(*inner) {
            Some(l) => Some(l * len),
            None => None,
        },
        IrType::Tuple(items) => tuple_length(items@, items@.len() as int),
        IrType::Unit => Some(0),
        IrType::Ref(inner) => spec_static_length(*inner),
        IrType::MutRef(inner) => spec_static_length(*inner),
        IrType::Named(_) => None,
    }
}

/// The summed length of the first `k` tuple items, stopping at the first that has none.
pub open spec fn tuple_length(items: Seq<IrType>, k: int) -> Option<int>
    decreases items, k,
{
    if k <= 0 || k > items.len() {
        Some(0)
    } else {
        match tuple_length(items, k - 1) {
            None => None,
            Some(acc) => match spec_static_length(items[k - 1]) {
                None => None,
                Some(l) => Some(acc + l),
            },
        }
    }
}

/// Computing the static length of `ty` stays within `usize`.
pub open spec fn length_fits(ty: IrType) -> bool
    decreases ty,
{
    match ty {
        IrType::Array(inner, len) => length_fits(*inner) && (spec_static_length(*inner) matches Some(l) ==> l * len
            <= usize::MAX),
        IrType::Tuple(items) => tuple_fits(items@, items@.len() as int),
        IrType::Ref(inner) => length_fits(*inner),
        IrType::MutRef(inner) => length_fits(*inner),
        _ => true,
    }
}

pub open spec fn tuple_fits(items: Seq<IrType>, k: int) -> bool
    decreases items, k,
{
    if k <= 0 || k > items.len() {
        true
    } else {
        tuple_fits(items, k - 1) && (tuple_length(items, k - 1) matches Some(acc) ==> length_fits(items[k - 1]) && (
        spec_static_length(items[k - 1]) matches Some(l) ==> acc + l <= usize::MAX))
    }
}

proof fn lemma_static_length_nonneg(ty: IrType)
    ensures
        spec_static_length(ty) matches Some(l) ==> l >= 0,
    decreases ty,
{
    match ty {
        IrType::Array(inner, len) => {
            lemma_static_length_nonneg(*inner);
            if let Some(l) = spec_static_length(*inner) {
                assert(l * len >= 0) by (nonlinear_arith)
                    requires
                        l >= 0,
                        len >= 0,
                ;
            }
        },
        IrType::Tuple(items) => {
            lemma_tuple_length_nonneg(items@, items@.len() as int);
        },
        IrType::Ref(inner) => lemma_static_length_nonneg(*inner),
        IrType::MutRef(inner) => lemma_static_length_nonneg(*inner),
        _ => {},
    }
}

proof fn lemma_tuple_length_nonneg(items: Seq<IrType>, k: int)
    ensures
        tuple_length(items, k) matches Some(l) ==> l >= 0,
    decreases items, k,
{
    if 0 < k <= items.len() {
        lemma_tuple_length_nonneg(items, k - 1);
        lemma_static_length_nonneg(items[k - 1]);
    }
}

/// The byte length of a type laid out inline, when it is static.
#[verifier::loop_isolation(false)]
pub fn type_static_length(ty: &IrType) -> (r: Option<usize>)
    requires
        length_fits(*ty),
    ensures
        opt_usize(r) == spec_static_length(*ty),
    decreases ty,
{
    match ty {
        IrType::Bool | IrType::U8 => Some(1),
        IrType::U16 => Some(2),
        IrType::U32 => Some(4),
        IrType::U64 => Some(8),
        IrType::U128 => Some(16),
        IrType::Address | IrType::Hash => Some(32),
        IrType::Array(inner, len) => {
            proof {
                lemma_static_length_nonneg(**inner);
            }
            match type_static_length(inner) {
                Some(l) => Some(l * *len),
                None => None,
            }
        },
        IrType::Tuple(items) => {
            let mut acc: usize = 0;
            let mut i: usize = 0;
            while i < items.len()
                invariant
                    i <= items@.len(),
                    tuple_fits(items@, items@.len() as int),
                    tuple_length(items@, i as int) == Some(acc as int),
                decreases items@.len() - i,
            {
                proof {
                    assert(decreases_to!(*ty => items[i as int]));
                    lemma_tuple_fits_prefix(items@, i as int + 1, items@.len() as int);
                    lemma_static_length_nonneg(items@[i as int]);
                }
                match type_static_length(&items[i]) {
                    Some(l) => {
                        acc = acc + l;
                    },
                    None => {
                        proof {
                            lemma_tuple_length_none(items@, i as int + 1, items@.len() as int);
                        }
                        return None;
                    },
                }
                i = i + 1;
            }
            Some(acc)
        },
        IrType::Unit => Some(0),
        IrType::Ref(inner) | IrType::MutRef(inner) => type_static_length(inner),
        IrType::Named(_) => None,
    }
}

pub proof fn lemma_tuple_fits_prefix_pub(items: Seq<IrType>, k: int, n: int)
    requires
        0 <= k <= n <= items.len(),
        tuple_fits(items, n),
    ensures
        tuple_fits(items, k),
{
    lemma_tuple_fits_prefix(items, k, n);
}

pub proof fn lemma_static_length_nonneg_pub(ty: IrType)
    ensures
        spec_static_length(ty) matches Some(l) ==> l >= 0,
{
    lemma_static_length_nonneg(ty);
}

proof fn lemma_tuple_fits_prefix(items: Seq<IrType>, k: int, n: int)
    requires
        0 <= k <= n <= items.len(),
        tuple_fits(items, n),
    ensures
        tuple_fits(items, k),
    decreases n - k,
{
    if k < n {
        lemma_tuple_fits_prefix(items, k, n - 1);
    }
}

pub proof fn lemma_tuple_length_none_pub(items: Seq<IrType>, k: int, n: int)
    requires
        0 <= k <= n <= items.len(),
        tuple_length(items, k) is None,
    ensures
        tuple_length(items, n) is None,
{
    lemma_tuple_length_none(items, k, n);
}

proof fn lemma_tuple_length_none(items: Seq<IrType>, k: int, n: int)
    requires
        0 <= k <= n <= items.len(),
        tuple_length(items, k) is None,
    ensures
        tuple_length(items, n) is None,
    decreases n - k,
{
    if k < n {
        lemma_tuple_length_none(items, k, n - 1);
    }
}

/// The width of a value whose bytes are compared or copied as a block.
pub open spec fn spec_fixed_byte_width(ty: IrType, fixed_size: Option<usize>) -> Option<int>
    decreases ty,
{
    if spec_fixed_scalar_width(ty, fixed_size) is Some {
        spec_fixed_scalar_width(ty, fixed_size)
    } else {
        match ty {
            IrType::Address => if fixed_size == Some(32usize) { Some(32) } else { None },
            IrType::Hash => if fixed_size == Some(32usize) { Some(32) } else { None },
            IrType::U128 => if fixed_size == Some(16usize) { Some(16) } else { None },
            IrType::Array(inner, len) => match fixed_size {
                Some(size) => if *inner == IrType::U8 && len == size { Some(size as int) } else { None },
                None => None,
            },
            IrType::Ref(inner) => spec_fixed_byte_width(*inner, static_len_usize(*inner)),
            IrType::MutRef(inner) => spec_fixed_byte_width(*inner, static_len_usize(*inner)),
            _ => None,
        }
    }
}

/// The static length as a `usize`.
pub open spec fn static_len_usize(ty: IrType) -> Option<usize> {
    match spec_static_length(ty) {
        Some(l) => Some(l as usize),
        None => None,
    }
}

/// Every type nested under references has a length that fits.
pub open spec fn byte_width_fits(ty: IrType) -> bool
    decreases ty,
{
    match ty {
        IrType::Ref(inner) => length_fits(*inner) && byte_width_fits(*inner),
        IrType::MutRef(inner) => length_fits(*inner) && byte_width_fits(*inner),
        _ => true,
    }
}

fn is_u8(ty: &IrType) -> (r: bool)
    ensures
        r == (*ty == IrType::U8),
{
    match ty {
        IrType::U8 => true,
        _ => false,
    }
}

pub fn fixed_byte_width(ty: &IrType, fixed_size: Option<usize>) -> (r: Option<usize>)
    requires
        byte_width_fits(*ty),
    ensures
        opt_usize(r) == spec_fixed_byte_width(*ty, fixed_size),
    decreases ty,
{
    if let Some(w) = fixed_scalar_width(ty, fixed_size) {
        return Some(w);
    }
    match (ty, fixed_size) {
        (IrType::Address, Some(32)) | (IrType::Hash, Some(32)) => Some(32),
        (IrType::U128, Some(16)) => Some(16),
        (IrType::Array(inner, len), Some(size)) => if is_u8(inner) && *len == size { Some(size) } else { None },
        (IrType::Ref(inner), _) | (IrType::MutRef(inner), _) => {
            let l = type_static_length(inner);
            proof {
                lemma_static_length_nonneg(**inner);
            }
            fixed_byte_width(inner, l)
        },
        _ => None,
    }
}

/// Widths of byte-block operands: 32-byte values, `u128` and byte arrays.
pub open spec fn spec_operand_fixed_byte_width(operand: IrOperand) -> Option<int> {
    match operand {
        IrOperand::Const(IrConst::Address(_)) => Some(32),
        IrOperand::Const(IrConst::Hash(_)) => Some(32),
        IrOperand::Const(IrConst::Array(values)) => Some(values@.len() as int),
        IrOperand::Const(IrConst::U128(_)) => Some(16),
        IrOperand::Var(var) => match var.ty {
            IrType::Address => Some(32),
            IrType::Hash => Some(32),
            IrType::U128 => Some(16),
            IrType::Array(inner, len) => if *inner == IrType::U8 { Some(len as int) } else { None },
            _ => None,
        },
        _ => None,
    }
}

pub fn operand_fixed_byte_width(operand: &IrOperand) -> (r: Option<usize>)
    ensures
        opt_usize(r) == spec_operand_fixed_byte_width(*operand),
{
    match operand {
        IrOperand::Const(IrConst::Address(_)) | IrOperand::Const(IrConst::Hash(_)) => Some(32),
        IrOperand::Const(IrConst::Array(values)) => Some(values.len()),
        IrOperand::Const(IrConst::U128(_)) => Some(16),
        IrOperand::Var(var) => match &var.ty {
            IrType::Address | IrType::Hash => Some(32),
            IrType::U128 => Some(16),
            IrType::Array(inner, len) => if is_u8(inner) { Some(*len) } else { None },
            _ => None,
        },
        _ => None,
    }
}

/// The width of a scalar operand.
pub open spec fn spec_fixed_scalar_operand_width(operand: IrOperand) -> Option<int> {
    match operand {
        IrOperand::Var(var) => spec_fixed_scalar_width(var.ty, static_len_usize(var.ty)),
        IrOperand::Const(IrConst::Bool(_)) => Some(1),
        IrOperand::Const(IrConst::U8(_)) => Some(1),
        IrOperand::Const(IrConst::U16(_)) => Some(2),
        IrOperand::Const(IrConst::U32(_)) => Some(4),
        IrOperand::Const(IrConst::U64(_)) => Some(8),
        _ => None,
    }
}

pub fn fixed_scalar_operand_width(operand: &IrOperand) -> (r: Option<usize>)
    requires
        operand matches IrOperand::Var(v) ==> length_fits(v.ty),
    ensures
        opt_usize(r) == spec_fixed_scalar_operand_width(*operand),
{
    match operand {
        IrOperand::Var(var) => {
            let l = type_static_length(&var.ty);
            proof {
                lemma_static_length_nonneg(var.ty);
            }
            fixed_scalar_width(&var.ty, l)
        },
        IrOperand::Const(IrConst::Bool(_)) | IrOperand::Const(IrConst::U8(_)) => Some(1),
        IrOperand::Const(IrConst::U16(_)) => Some(2),
        IrOperand::Const(IrConst::U32(_)) => Some(4),
        IrOperand::Const(IrConst::U64(_)) => Some(8),
        _ => None,
    }
}

/// The width of one part of a byte vector built from operands.
pub fn constructed_byte_vector_part_width(operand: &IrOperand) -> (r: Option<usize>)
    requires
        operand matches IrOperand::Var(v) ==> length_fits(v.ty),
    ensures
        opt_usize(r) == (if spec_operand_fixed_byte_width(*operand) is Some {
            spec_operand_fixed_byte_width(*operand)
        } else {
            spec_fixed_scalar_operand_width(*operand)
        }),
{
    match operand_fixed_byte_width(operand) {
        Some(w) => Some(w),
        None => fixed_scalar_operand_width(operand),
    }
}

/// Byte-block parameters wider than a register are passed by pointer.
pub fn fixed_byte_pointer_param_width(ty: &IrType) -> (r: Option<usize>)
    requires
        length_fits(*ty),
        byte_width_fits(*ty),
    ensures
        opt_usize(r) == (match spec_fixed_byte_width(*ty, static_len_usize(*ty)) {
            Some(w) => if w > 8 { Some(w) } else { None },
            None => None,
        }),
{
    let l = type_static_length(ty);
    proof {
        lemma_static_length_nonneg(*ty);
    }
    match fixed_byte_width(ty, l) {
        Some(w) => if w > 8 { Some(w) } else { None },
        None => None,
    }
}

/// Arrays and tuples wider than a register are passed by pointer.
pub fn fixed_aggregate_pointer_param_width(ty: &IrType) -> (r: Option<usize>)
    requires
        length_fits(*ty),
    ensures
        opt_usize(r) == (match *ty {
            IrType::Array(_, _) | IrType::Tuple(_) => match spec_static_length(*ty) {
                Some(w) => if w > 8 { Some(w) } else { None },
                None => None,
            },
            _ => None,
        }),
{
    match ty {
        IrType::Array(_, _) | IrType::Tuple(_) => match type_static_length(ty) {
            Some(w) => if w > 8 { Some(w) } else { None },
            None => None,
        },
        _ => None,
    }
}

/// The value of a scalar constant.
pub open spec fn spec_fixed_scalar_const_value(value: IrConst) -> Option<u64> {
    match value {
        IrConst::Bool(b) => Some(if b { 1u64 } else { 0u64 }),
        IrConst::U8(v) => Some(v as u64),
        IrConst::U16(v) => Some(v as u64),
        IrConst::U32(v) => Some(v as u64),
        IrConst::U64(v) => Some(v),
        _ => None,
    }
}

pub fn fixed_scalar_const_value(value: &IrConst) -> (r: Option<u64>)
    ensures
        r == spec_fixed_scalar_const_value(*value),
{
    match value {
        IrConst::Bool(b) => Some(if *b { 1 } else { 0 }),
        IrConst::U8(v) => Some(*v as u64),
        IrConst::U16(v) => Some(*v as u64),
        IrConst::U32(v) => Some(*v as u64),
        IrConst::U64(v) => Some(*v),
        _ => None,
    }
}

/// The `usize` value of an unsigned integer constant operand.
pub open spec fn spec_const_usize_operand(operand: IrOperand) -> Option<int> {
    match operand {
        IrOperand::Const(IrConst::U8(v)) => Some(v as int),
        IrOperand::Const(IrConst::U16(v)) => Some(v as int),
        IrOperand::Const(IrConst::U32(v)) => Some(v as int),
        IrOperand::Const(IrConst::U64(v)) => if v <= usize::MAX { Some(v as int) } else { None },
        _ => None,
    }
}

pub fn const_usize_operand(operand: &IrOperand) -> (r: Option<usize>)
    ensures
        opt_usize(r) == spec_const_usize_operand(*operand),
{
    match operand {
        IrOperand::Const(IrConst::U8(v)) => Some(*v as usize),
        IrOperand::Const(IrConst::U16(v)) => Some(*v as usize),
        IrOperand::Const(IrConst::U32(v)) => Some(*v as usize),
        IrOperand::Const(IrConst::U64(v)) => if (*v as u128) <= (usize::MAX as u128) { Some(*v as usize) } else { None },
        _ => None,
    }
}

/// The bytes of a byte-block constant: 32-byte values, `u128` little-endian, byte arrays.
pub open spec fn spec_fixed_byte_const_bytes(value: IrConst) -> Option<Seq<u8>> {
    match value {
        IrConst::Address(b) => Some(b@),
        IrConst::Hash(b) => Some(b@),
        IrConst::U128(v) => Some(crate::assembler::parse::le_bytes(v as int, 16)),
        IrConst::Array(values) => if forall|i: int| 0 <= i < values@.len() ==> (#[trigger] values@[i]) is U8 {
            Some(values@.map_values(|c: IrConst| c->U8_0))
        } else {
            None
        },
        _ => None,
    }
}

#[verifier::loop_isolation(false)]
pub fn fixed_byte_const_bytes(value: &IrConst) -> (r: Option<Vec<u8>>)
    ensures
        r matches Some(b) ==> spec_fixed_byte_const_bytes(*value) == Some(b@),
        r is None ==> spec_fixed_byte_const_bytes(*value) is None,
{
    match value {
        IrConst::Address(b) | IrConst::Hash(b) => {
            let mut out: Vec<u8> = Vec::new();
            let mut i: usize = 0;
            while i < 32
                invariant
                    i <= 32,
                    b@.len() == 32,
                    out@ == b@.subrange(0, i as int),
                decreases 32 - i,
            {
                out.push(b[i]);
                i = i + 1;
                assert(out@ =~= b@.subrange(0, i as int));
            }
            assert(b@.subrange(0, 32) =~= b@);
            Some(out)
        },
        IrConst::U128(v) => {
            let mut out: Vec<u8> = Vec::new();
            let mut x: u128 = *v;
            let mut i: usize = 0;
            while i < 16
                invariant
                    i <= 16,
                    crate::assembler::parse::le_bytes(*v as int, 16) == out@ + crate::assembler::parse::le_bytes(
                        x as int, (16 - i) as nat),
                decreases 16 - i,
            {
                assert(crate::assembler::parse::le_bytes(x as int, (16 - i) as nat) == seq![(x as int % 256) as u8]
                    + crate::assembler::parse::le_bytes(x as int / 256, (16 - i - 1) as nat));
                out.push((x % 256) as u8);
                x = x / 256;
                i = i + 1;
                assert(crate::assembler::parse::le_bytes(*v as int, 16) =~= out@ + crate::assembler::parse::le_bytes(
                    x as int, (16 - i) as nat));
            }
            assert(out@ =~= crate::assembler::parse::le_bytes(*v as int, 16));
            Some(out)
        },
        IrConst::Array(values) => {
            let mut out: Vec<u8> = Vec::new();
            let mut i: usize = 0;
            while i < values.len()
                invariant
                    i <= values@.len(),
                    out@.len() == i,
                    forall|j: int| 0 <= j < i ==> (#[trigger] values@[j]) is U8 && out@[j] == values@[j]->U8_0,
                decreases values@.len() - i,
            {
                match &values[i] {
                    IrConst::U8(byte) => {
                        out.push(*byte);
                    },
                    _ => {
                        assert(!(values@[i as int] is U8));
                        assert(!(forall|j: int| 0 <= j < values@.len() ==> (#[trigger] values@[j]) is U8));
                        return None;
                    },
                }
                i = i + 1;
            }
            assert(out@ =~= values@.map_values(|c: IrConst| c->U8_0));
            Some(out)
        },
        _ => None,
    }
}

/// The name of a named type, seen through references.
pub open spec fn spec_named_type_name(ty: IrType) -> Option<Seq<char>>
    decreases ty,
{
    match ty {
        IrType::Named(name) => Some(name@),
        IrType::Ref(inner) => spec_named_type_name(*inner),
        IrType::MutRef(inner) => spec_named_type_name(*inner),
        _ => None,
    }
}

pub fn named_type_name(ty: &IrType) -> (r: Option<&str>)
    ensures
        r matches Some(s) ==> spec_named_type_name(*ty) == Some(s@),
        r is None ==> spec_named_type_name(*ty) is None,
    decreases ty,
{
    match ty {
        IrType::Named(name) => Some(name.as_str()),
        IrType::Ref(inner) | IrType::MutRef(inner) => named_type_name(inner),
        _ => None,
    }
}

/// The inline width of a Molecule type name: scalars, `Address`/`Hash`, or a
/// declared fixed-size struct or enum.
pub open spec fn spec_inline_width(name: Seq<char>, structs: NameMap<usize>, enums: NameMap<usize>) -> Option<int> {
    let t = trim(name);
    if t == "bool"@ || t == "u8"@ {
        Some(1)
    } else if t == "u16"@ {
        Some(2)
    } else if t == "u32"@ {
        Some(4)
    } else if t == "u64"@ {
        Some(8)
    } else if t == "u128"@ {
        Some(16)
    } else if t == "Address"@ || t == "Hash"@ {
        Some(32)
    } else {
        match structs.lookup(t) {
            Some(w) => Some(w as int),
            None => match enums.lookup(t) {
                Some(w) => Some(w as int),
                None => None,
            },
        }
    }
}

pub fn molecule_inline_type_fixed_width(ty: &str, type_fixed_sizes: &NameMap<usize>, enum_fixed_sizes: &NameMap<usize>) -> (r: Option<usize>)
    ensures
        opt_usize(r) == spec_inline_width(ty@, *type_fixed_sizes, *enum_fixed_sizes),
{
    let raw = str_chars(ty);
    let t = trim_chars(raw.as_slice());
    let ts = t.as_slice();
    if chars_eq_str(ts, "bool") || chars_eq_str(ts, "u8") {
        Some(1)
    } else if chars_eq_str(ts, "u16") {
        Some(2)
    } else if chars_eq_str(ts, "u32") {
        Some(4)
    } else if chars_eq_str(ts, "u64") {
        Some(8)
    } else if chars_eq_str(ts, "u128") {
        Some(16)
    } else if chars_eq_str(ts, "Address") || chars_eq_str(ts, "Hash") {
        Some(32)
    } else {
        let name = string_from_chars(ts);
        match type_fixed_sizes.get(name.as_str()) {
            Some(w) => Some(w),
            None => enum_fixed_sizes.get(name.as_str()),
        }
    }
}

/// The element width of a Molecule vector type `Vec<T>` (or `String`).
pub open spec fn spec_vector_element_width(ty: IrType, structs: NameMap<usize>, enums: NameMap<usize>) -> Option<int> {
    match ty {
        IrType::Named(name) => {
            let n = name@;
            if n == "String"@ {
                Some(1)
            } else if n.len() >= 5 && n.subrange(0, 4) == "Vec<"@ && n[n.len() - 1] == '>' {
                spec_inline_width(n.subrange(4, n.len() - 1), structs, enums)
            } else {
                None
            }
        },
        _ => None,
    }
}

pub fn molecule_vector_element_fixed_width(ty: &IrType, type_fixed_sizes: &NameMap<usize>, enum_fixed_sizes: &NameMap<usize>) -> (r: Option<usize>)
    ensures
        opt_usize(r) == spec_vector_element_width(*ty, *type_fixed_sizes, *enum_fixed_sizes),
{
    match ty {
        IrType::Named(name) => {
            let n = str_chars(name.as_str());
            if chars_eq_str(n.as_slice(), "String") {
                return Some(1);
            }
            let len = n.len();
            if len >= 5 {
                let head = chars_slice(n.as_slice(), 0, 4);
                if chars_eq_str(head.as_slice(), "Vec<") && n[len - 1] == '>' {
                    let inner = string_from_chars(chars_slice(n.as_slice(), 4, len - 1).as_slice());
                    return molecule_inline_type_fixed_width(inner.as_str(), type_fixed_sizes, enum_fixed_sizes);
                }
            }
            None
        },
        _ => None,
    }
}

} // verus!
