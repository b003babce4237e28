//! Operand helpers of the code generator: type ids, static lengths, named
//! type widths, the read-only constant pool, and loading an operand into a
//! register.

use vstd::prelude::*;
use crate::codegen::generator::{stack_access_lines, CodeGenerator};
use crate::codegen::lines::{li_body, mk_li, spec_emit_lines};
use crate::codegen::widths::{fixed_byte_const_bytes, spec_fixed_byte_const_bytes};
use crate::assembler::layout::strings_eq;
use crate::error::CompileError;
use crate::ir::{CreatePattern, IrConst, IrField, IrInstruction, IrOperand, IrStateTransitionEdge, IrType, IrTypeDef, IrVar};
use crate::text::{chars_eq_str, lemma_dec_nat_injective, str_chars};
use std::collections::HashMap;
use crate::names::NameMap;
use crate::text::{dec_int, dec_nat, push_decimal_u128, string_push_str};

verus! {

broadcast use {vstd::std_specs::vec::group_vec_axioms, vstd::std_specs::hash::group_hash_axioms};

/// The numeric id of a type, as type-hash tables record it.
pub open spec fn spec_type_id(ty: IrType) -> u32 {
    match ty {
        IrType::U8 => 1,
        IrType::U16 => 2,
        IrType::U32 => 3,
        IrType::U64 => 4,
        IrType::U128 => 5,
        IrType::Bool => 6,
        IrType::Address => 7,
        IrType::Hash => 8,
        IrType::Array(_, _) => 9,
        IrType::Tuple(_) => 10,
        IrType::Named(_) => 11,
        IrType::Ref(_) => 12,
        IrType::MutRef(_) => 13,
        IrType::Unit => 14,
    }
}

/// The element count of an array type, seen through references.
pub open spec fn spec_static_length_from_type(ty: IrType) -> Option<usize>
    decreases ty,
{
    match ty {
        IrType::Array(_, size) => Some(size),
        IrType::Ref(inner) => spec_static_length_from_type(*inner),
        IrType::MutRef(inner) => spec_static_length_from_type(*inner),
        _ => None,
    }
}

/// The fixed width of a named schema or fieldless enum, seen through references.
pub open spec fn spec_fixed_named_width(types: NameMap<usize>, enums: NameMap<usize>, ty: IrType) -> Option<usize>
    decreases ty,
{
    match ty {
        IrType::Named(name) => match types.lookup(name@) {
            Some(w) => Some(w),
            None => enums.lookup(name@),
        },
        IrType::Ref(inner) => spec_fixed_named_width(types, enums, *inner),
        IrType::MutRef(inner) => spec_fixed_named_width(types, enums, *inner),
        _ => None,
    }
}

/// The label of the `n`th pooled constant.
pub open spec fn const_label(n: nat) -> Seq<char> {
    "__cellscript_const_data_"@ + dec_nat(n)
}

/// The first pooled constant with these bytes, searching from `i`.
pub open spec fn pooled_index_from(entries: Seq<(Seq<char>, Seq<u8>)>, bytes: Seq<u8>, i: int) -> Option<int>
    decreases entries.len() - i,
{
    if i < 0 || i >= entries.len() {
        None
    } else if entries[i].1 == bytes {
        Some(i)
    } else {
        pooled_index_from(entries, bytes, i + 1)
    }
}

/// The label under which these bytes are pooled: an existing entry's, or the next fresh one.
pub open spec fn pooled_label(entries: Seq<(Seq<char>, Seq<u8>)>, bytes: Seq<u8>) -> Seq<char> {
    match pooled_index_from(entries, bytes, 0) {
        Some(i) => entries[i].0,
        None => const_label(entries.len()),
    }
}

/// The pool after asking for these bytes: unchanged if they are pooled, else one entry longer.
pub open spec fn pool_after(entries: Seq<(Seq<char>, Seq<u8>)>, bytes: Seq<u8>) -> Seq<(Seq<char>, Seq<u8>)> {
    match pooled_index_from(entries, bytes, 0) {
        Some(_) => entries,
        None => entries.push((const_label(entries.len()), bytes)),
    }
}

/// Each pool entry carries the label of its position.
pub open spec fn pool_labels_ok(entries: Seq<(Seq<char>, Seq<u8>)>) -> bool {
    forall|i: int| 0 <= i < entries.len() ==> (#[trigger] entries[i]).0 == const_label(i as nat)
}

proof fn lemma_const_label_injective(n: nat, m: nat)
    requires
        const_label(n) == const_label(m),
    ensures
        n == m,
{
    let p = "__cellscript_const_data_"@;
    assert(dec_nat(n) =~= const_label(n).subrange(p.len() as int, const_label(n).len() as int));
    assert(dec_nat(m) =~= const_label(m).subrange(p.len() as int, const_label(m).len() as int));
    lemma_dec_nat_injective(n, m);
}

proof fn lemma_pooled_index_found(entries: Seq<(Seq<char>, Seq<u8>)>, bytes: Seq<u8>, i: int)
    requires
        0 <= i,
    ensures
        pooled_index_from(entries, bytes, i) matches Some(j) ==> i <= j < entries.len() && entries[j].1 == bytes,
        pooled_index_from(entries, bytes, i) is None ==> forall|k: int| i <= k < entries.len() ==> (#[trigger] entries[k]).1 != bytes,
    decreases entries.len() - i,
{
    if i < entries.len() && entries[i].1 != bytes {
        lemma_pooled_index_found(entries, bytes, i + 1);
    }
}

proof fn lemma_pooled_index_push(entries: Seq<(Seq<char>, Seq<u8>)>, e: (Seq<char>, Seq<u8>), bytes: Seq<u8>, i: int)
    requires
        0 <= i <= entries.len(),
        e.1 == bytes,
        forall|k: int| i <= k < entries.len() ==> (#[trigger] entries[k]).1 != bytes,
    ensures
        pooled_index_from(entries.push(e), bytes, i) == Some(entries.len() as int),
    decreases entries.len() - i,
{
    if i < entries.len() {
        lemma_pooled_index_push(entries, e, bytes, i + 1);
    }
}

/// Asking for constant bytes keeps every entry under the label of its
/// position.
pub proof fn lemma_pool_after_keeps_labels(entries: Seq<(Seq<char>, Seq<u8>)>, bytes: Seq<u8>)
    requires
        pool_labels_ok(entries),
    ensures
        pool_labels_ok(pool_after(entries, bytes)),
{
    let e2 = pool_after(entries, bytes);
    assert forall|i: int| 0 <= i < e2.len() implies (#[trigger] e2[i]).0 == const_label(i as nat) by {
        if i < entries.len() {
            assert(e2[i] == entries[i]);
        }
    }
}

/// Asking twice for the same bytes gives the same label and adds nothing
/// the second time.
pub proof fn lemma_pool_repeat(entries: Seq<(Seq<char>, Seq<u8>)>, bytes: Seq<u8>)
    ensures
        pooled_label(pool_after(entries, bytes), bytes) == pooled_label(entries, bytes),
        pool_after(pool_after(entries, bytes), bytes) == pool_after(entries, bytes),
{
    lemma_pooled_index_found(entries, bytes, 0);
    if pooled_index_from(entries, bytes, 0) is None {
        lemma_pooled_index_push(entries, (const_label(entries.len()), bytes), bytes, 0);
    }
}

/// In a pool whose entries carry the labels of their positions, asking for
/// two different byte strings one after the other gives two different
/// labels.
pub proof fn lemma_pool_distinct_bytes_distinct_labels(entries: Seq<(Seq<char>, Seq<u8>)>, b1: Seq<u8>, b2: Seq<u8>)
    requires
        pool_labels_ok(entries),
        b1 != b2,
    ensures
        pooled_label(entries, b1) != pooled_label(pool_after(entries, b1), b2),
{
    let e1 = pool_after(entries, b1);
    lemma_pool_after_keeps_labels(entries, b1);
    lemma_pooled_index_found(entries, b1, 0);
    lemma_pooled_index_found(e1, b2, 0);
    let l1 = pooled_label(entries, b1);
    let l2 = pooled_label(e1, b2);
    let n1: nat = match pooled_index_from(entries, b1, 0) {
        Some(i) => i as nat,
        None => entries.len(),
    };
    let n2: nat = match pooled_index_from(e1, b2, 0) {
        Some(j) => j as nat,
        None => e1.len(),
    };
    assert(l1 == const_label(n1));
    assert(l2 == const_label(n2));
    assert(e1[n1 as int].1 == b1);
    assert(n1 != n2);
    if l1 == l2 {
        lemma_const_label_injective(n1, n2);
    }
}

/// The `.rodata` lines of the pool entries: each label, its bytes, and an alignment.
pub open spec fn pool_entry_lines(entries: Seq<(Seq<char>, Seq<u8>)>) -> Seq<Seq<char>>
    decreases entries.len(),
{
    if entries.len() == 0 {
        Seq::empty()
    } else {
        pool_entry_lines(entries.drop_last()) + seq![entries.last().0 + ":"@] + byte_lines(entries.last().1) + spec_emit_lines(
            ".align 3"@,
        )
    }
}

/// `.byte b` for each byte.
pub open spec fn byte_lines(bytes: Seq<u8>) -> Seq<Seq<char>>
    decreases bytes.len(),
{
    if bytes.len() == 0 {
        Seq::empty()
    } else {
        byte_lines(bytes.drop_last()) + spec_emit_lines(".byte "@ + dec_nat(bytes.last() as nat))
    }
}

/// Stores each byte through `t0` at consecutive stack offsets from `offset`.
pub open spec fn store_bytes_lines(bytes: Seq<u8>, offset: int) -> Seq<Seq<char>>
    decreases bytes.len(),
{
    if bytes.len() == 0 {
        Seq::empty()
    } else {
        store_bytes_lines(bytes.drop_last(), offset) + spec_emit_lines(li_body("t0"@, bytes.last() as int)) + stack_access_lines(
            "sb"@,
            "t0"@,
            offset + bytes.len() - 1,
        )
    }
}

/// The text of an operand in an assembly comment.
pub open spec fn operand_comment_text(label: Seq<char>, operand: IrOperand) -> Seq<char> {
    label + ": "@ + match operand {
        IrOperand::Var(var) => var.name@,
        IrOperand::Const(IrConst::U64(n)) => dec_nat(n as nat),
        IrOperand::Const(IrConst::Bool(b)) => if b { "true"@ } else { "false"@ },
        IrOperand::Const(IrConst::Address(_)) => "<address>"@,
        IrOperand::Const(IrConst::Hash(_)) => "<hash>"@,
        IrOperand::Const(IrConst::Array(items)) => "<array:"@ + dec_nat(items@.len()) + ">"@,
        IrOperand::Const(_) => "<const>"@,
    }
}

/// A 128-bit constant, or a variable of 128-bit type.
pub open spec fn spec_operand_is_u128(operand: IrOperand) -> bool {
    match operand {
        IrOperand::Const(IrConst::U128(_)) => true,
        IrOperand::Var(v) => v.ty is U128,
        _ => false,
    }
}

/// The small constant an operand loads as an immediate, if it is one.
pub open spec fn immediate_of(operand: IrOperand) -> Option<int> {
    match operand {
        IrOperand::Const(IrConst::U8(n)) => Some(n as int),
        IrOperand::Const(IrConst::U16(n)) => Some(n as int),
        IrOperand::Const(IrConst::U32(n)) => Some(n as int),
        IrOperand::Const(IrConst::U64(n)) => Some(n as int),
        IrOperand::Const(IrConst::Bool(b)) => Some(if b { 1int } else { 0int }),
        _ => None,
    }
}

impl CodeGenerator {
    /// The pool entries as label and byte sequences.
    pub open spec fn pool(&self) -> Seq<(Seq<char>, Seq<u8>)> {
        self.const_data_entries@.map_values(|e: (String, Vec<u8>)| (e.0@, e.1@))
    }

    /// The numeric id of a type.
    pub fn type_id(&self, ty: &IrType) -> (r: u32)
        ensures
            r == spec_type_id(*ty),
    {
        match ty {
            IrType::U8 => 1,
            IrType::U16 => 2,
            IrType::U32 => 3,
            IrType::U64 => 4,
            IrType::U128 => 5,
            IrType::Bool => 6,
            IrType::Address => 7,
            IrType::Hash => 8,
            IrType::Array(_, _) => 9,
            IrType::Tuple(_) => 10,
            IrType::Named(_) => 11,
            IrType::Ref(_) => 12,
            IrType::MutRef(_) => 13,
            IrType::Unit => 14,
        }
    }

    /// The element count of an array type, seen through references.
    pub fn static_length_from_type(ty: &IrType) -> (r: Option<usize>)
        ensures
            r == spec_static_length_from_type(*ty),
        decreases ty,
    {
        match ty {
            IrType::Array(_, size) => Some(*size),
            IrType::Ref(inner) | IrType::MutRef(inner) => Self::static_length_from_type(inner),
            _ => None,
        }
    }

    /// The element count of an operand: of its array type, or of an array constant.
    pub fn static_length(&self, operand: &IrOperand) -> (r: Option<usize>)
        ensures
            r == match *operand {
                IrOperand::Var(var) => spec_static_length_from_type(var.ty),
                IrOperand::Const(IrConst::Array(items)) => Some(items@.len() as usize),
                _ => None,
            },
    {
        match operand {
            IrOperand::Var(var) => Self::static_length_from_type(&var.ty),
            IrOperand::Const(IrConst::Array(items)) => Some(items.len()),
            _ => None,
        }
    }

    /// The fixed width of a named schema or fieldless enum, seen through references.
    pub fn fixed_named_type_width(&self, ty: &IrType) -> (r: Option<usize>)
        ensures
            r == spec_fixed_named_width(self.type_fixed_sizes, self.enum_fixed_sizes, *ty),
        decreases ty,
    {
        match ty {
            IrType::Named(name) => match self.type_fixed_sizes.get(name.as_str()) {
                Some(w) => Some(w),
                None => self.enum_fixed_sizes.get(name.as_str()),
            },
            IrType::Ref(inner) | IrType::MutRef(inner) => self.fixed_named_type_width(inner),
            _ => None,
        }
    }

    /// Whether an operand is a 128-bit value.
    pub fn operand_is_u128(&self, operand: &IrOperand) -> (r: bool)
        ensures
            r == spec_operand_is_u128(*operand),
    {
        match operand {
            IrOperand::Const(IrConst::U128(_)) => true,
            IrOperand::Var(var) => match var.ty {
                IrType::U128 => true,
                _ => false,
            },
            _ => false,
        }
    }

    /// The label under which `bytes` sit in the read-only pool, adding them
    /// under the next fresh label when they are not pooled yet.
    pub fn const_data_label_for_bytes(&mut self, bytes: Vec<u8>) -> (label: String)
        ensures
            label@ == pooled_label(old(self).pool(), bytes@),
            final(self).pool() == pool_after(old(self).pool(), bytes@),
            final(self).lines() == old(self).lines(),
            final(self).same_state(old(self)),
            final(self).next_runtime_label == old(self).next_runtime_label,
    {
        let ghost p = self.pool();
        let mut i: usize = 0;
        while i < self.const_data_entries.len()
            invariant
                i <= p.len(),
                p == self.pool(),
                pooled_index_from(p, bytes@, 0) == pooled_index_from(p, bytes@, i as int),
            decreases p.len() - i,
        {
            if bytes_eq(&self.const_data_entries[i].1, &bytes) {
                assert(p[i as int].1 == bytes@);
                return self.const_data_entries[i].0.clone();
            }
            i = i + 1;
        }
        let mut label = String::new();
        string_push_str(&mut label, "__cellscript_const_data_");
        push_decimal_u128(&mut label, self.const_data_entries.len() as u128);
        assert(label@ =~= const_label(p.len()));
        self.const_data_entries.push((label.clone(), bytes));
        assert(self.pool() =~= p.push((const_label(p.len()), bytes@)));
        label
    }

    /// The read-only pool: `.section .rodata`, then each entry's label, bytes
    /// and alignment; nothing when the pool is empty.
    pub fn emit_const_data_pool(&mut self)
        ensures
            final(self).text_appended(
                old(self),
                if old(self).pool().len() == 0 {
                    Seq::empty()
                } else {
                    seq![".section .rodata"@] + pool_entry_lines(old(self).pool())
                },
            ),
    {
        let ghost start = *self;
        let ghost p = self.pool();
        if self.const_data_entries.len() == 0 {
            assert(self.lines() =~= start.lines() + Seq::<Seq<char>>::empty());
            return;
        }
        self.emit_section(".rodata");
        let mut entries: Vec<(String, Vec<u8>)> = Vec::new();
        std::mem::swap(&mut entries, &mut self.const_data_entries);
        assert(entries@.map_values(|e: (String, Vec<u8>)| (e.0@, e.1@)) == p);
        let mut i: usize = 0;
        assert(p.subrange(0, 0) =~= Seq::<(Seq<char>, Seq<u8>)>::empty());
        proof {
            reveal_strlit(".section ");
            reveal_strlit(".rodata");
            reveal_strlit(".section .rodata");
            assert(".section "@ + ".rodata"@ =~= ".section .rodata"@);
        }
        assert(self.lines() =~= start.lines() + seq![".section .rodata"@] + pool_entry_lines(p.subrange(0, 0)));
        while i < entries.len()
            invariant
                i <= entries@.len(),
                entries@.map_values(|e: (String, Vec<u8>)| (e.0@, e.1@)) == p,
                entries == start.const_data_entries,
                self.lines() == start.lines() + seq![".section .rodata"@] + pool_entry_lines(p.subrange(0, i as int)),
                self.same_state(&start),
                self.next_runtime_label == start.next_runtime_label,
            decreases entries@.len() - i,
        {
            let ghost before = self.lines();
            self.emit_label(entries[i].0.as_str());
            let bytes = &entries[i].1;
            let mut j: usize = 0;
            assert(bytes@.subrange(0, 0) =~= Seq::<u8>::empty());
            while j < bytes.len()
                invariant
                    j <= bytes@.len(),
                    self.lines() == before + seq![entries@[i as int].0@ + ":"@] + byte_lines(bytes@.subrange(0, j as int)),
                    self.same_state(&start),
                    self.next_runtime_label == start.next_runtime_label,
                decreases bytes@.len() - j,
            {
                let mut line = String::new();
                string_push_str(&mut line, ".byte ");
                push_decimal_u128(&mut line, bytes[j] as u128);
                self.emit(line.as_str());
                assert(bytes@.subrange(0, j + 1).drop_last() =~= bytes@.subrange(0, j as int));
                j = j + 1;
            }
            assert(bytes@.subrange(0, bytes@.len() as int) =~= bytes@);
            self.emit(".align 3");
            assert(p.subrange(0, i + 1).drop_last() =~= p.subrange(0, i as int));
            assert(p.subrange(0, i + 1).last() == (entries@[i as int].0@, entries@[i as int].1@));
            assert(self.lines() =~= start.lines() + seq![".section .rodata"@] + pool_entry_lines(p.subrange(0, i + 1)));
            i = i + 1;
        }
        assert(p.subrange(0, p.len() as int) =~= p);
        self.const_data_entries = entries;
        assert(self.lines() =~= start.lines() + (seq![".section .rodata"@] + pool_entry_lines(p)));
    }

    /// Writes each byte to the stack at consecutive offsets from `offset`.
    pub fn emit_store_const_bytes_to_stack(&mut self, bytes: &[u8], offset: usize)
        requires
            offset + bytes@.len() <= i64::MAX,
            offset + bytes@.len() <= usize::MAX,
        ensures
            final(self).text_appended(old(self), store_bytes_lines(bytes@, offset as int)),
    {
        let ghost start = *self;
        let mut index: usize = 0;
        assert(bytes@.subrange(0, 0) =~= Seq::<u8>::empty());
        while index < bytes.len()
            invariant
                index <= bytes@.len(),
                offset + bytes@.len() <= i64::MAX,
                offset + bytes@.len() <= usize::MAX,
                self.lines() == start.lines() + store_bytes_lines(bytes@.subrange(0, index as int), offset as int),
                self.same_state(&start),
                self.next_runtime_label == start.next_runtime_label,
                self.const_data_entries == start.const_data_entries,
            decreases bytes@.len() - index,
        {
            let li = mk_li("t0", bytes[index] as i128);
            self.emit(li.as_str());
            self.emit_stack_store_byte("t0", offset + index);
            assert(bytes@.subrange(0, index + 1).drop_last() =~= bytes@.subrange(0, index as int));
            assert(self.lines() =~= start.lines() + store_bytes_lines(bytes@.subrange(0, index + 1), offset as int));
            index = index + 1;
        }
        assert(bytes@.subrange(0, bytes@.len() as int) =~= bytes@);
    }

    /// A comment line naming an operand: its variable name, its value, or the
    /// kind of constant it is.
    pub fn emit_operand_comment(&mut self, label: &str, operand: &IrOperand)
        ensures
            final(self).text_appended(old(self), spec_emit_lines("#   "@ + operand_comment_text(label@, *operand))),
    {
        let mut line = String::new();
        string_push_str(&mut line, "#   ");
        string_push_str(&mut line, label);
        string_push_str(&mut line, ": ");
        match operand {
            IrOperand::Var(var) => string_push_str(&mut line, var.name.as_str()),
            IrOperand::Const(IrConst::U64(n)) => push_decimal_u128(&mut line, *n as u128),
            IrOperand::Const(IrConst::Bool(b)) => {
                if *b {
                    string_push_str(&mut line, "true");
                } else {
                    string_push_str(&mut line, "false");
                }
            },
            IrOperand::Const(IrConst::Address(_)) => string_push_str(&mut line, "<address>"),
            IrOperand::Const(IrConst::Hash(_)) => string_push_str(&mut line, "<hash>"),
            IrOperand::Const(IrConst::Array(items)) => {
                string_push_str(&mut line, "<array:");
                push_decimal_u128(&mut line, items.len() as u128);
                string_push_str(&mut line, ">");
            },
            IrOperand::Const(_) => string_push_str(&mut line, "<const>"),
        }
        assert(line@ =~= "#   "@ + operand_comment_text(label@, *operand));
        self.emit(line.as_str());
    }

    /// Loads an operand into `register`: a small constant as an immediate, a
    /// pooled byte constant by its address, a variable from its stack slot,
    /// and any other constant as zero.
    pub fn emit_operand_to_register(&mut self, register: &str, operand: &IrOperand)
        requires
            operand is Var ==> operand->Var_0.id * 8 <= i64::MAX && operand->Var_0.id * 8 <= usize::MAX,
        ensures
            final(self).lines() == old(self).lines() + operand_load_lines(register@, *operand, old(self).pool()),
            final(self).pool() == operand_pool_after(*operand, old(self).pool()),
            final(self).same_state(old(self)),
            final(self).next_runtime_label == old(self).next_runtime_label,
    {
        match operand {
            IrOperand::Const(IrConst::U8(n)) => self.emit(mk_li(register, *n as i128).as_str()),
            IrOperand::Const(IrConst::U16(n)) => self.emit(mk_li(register, *n as i128).as_str()),
            IrOperand::Const(IrConst::U32(n)) => self.emit(mk_li(register, *n as i128).as_str()),
            IrOperand::Const(IrConst::U64(n)) => self.emit(mk_li(register, *n as i128).as_str()),
            IrOperand::Const(IrConst::Bool(b)) => self.emit(mk_li(register, if *b { 1 } else { 0 }).as_str()),
            IrOperand::Const(value) => {
                match fixed_byte_const_bytes(value) {
                    Some(bytes) => {
                        let label = self.const_data_label_for_bytes(bytes);
                        let mut line = String::new();
                        string_push_str(&mut line, "la ");
                        string_push_str(&mut line, register);
                        string_push_str(&mut line, ", ");
                        string_push_str(&mut line, label.as_str());
                        self.emit(line.as_str());
                    },
                    None => self.emit(mk_li(register, 0).as_str()),
                }
            },
            IrOperand::Var(v) => self.emit_stack_load(register, v.id * 8),
        }
    }
}

/// An edge that creates a cell of type `ty`, bound to `binding` or to any output.
pub open spec fn edge_for_pattern(e: IrStateTransitionEdge, ty: Seq<char>, binding: Seq<char>) -> bool {
    e.ty_name@ == ty && match e.output_binding {
        Some(b) => b@ == binding,
        None => true,
    }
}

/// The edges among `edges` that a pattern creating `ty` bound to `binding` follows, in order.
pub open spec fn edges_for_pattern(edges: Seq<IrStateTransitionEdge>, ty: Seq<char>, binding: Seq<char>) -> Seq<IrStateTransitionEdge>
    decreases edges.len(),
{
    if edges.len() == 0 {
        Seq::empty()
    } else if edge_for_pattern(edges.last(), ty, binding) {
        edges_for_pattern(edges.drop_last(), ty, binding).push(edges.last())
    } else {
        edges_for_pattern(edges.drop_last(), ty, binding)
    }
}

pub open spec fn edges_text(edges: Seq<IrStateTransitionEdge>) -> Seq<(Option<Seq<char>>, Option<Seq<char>>, Seq<char>, Seq<char>, Seq<char>, Seq<char>, usize, usize)> {
    edges.map_values(|e: IrStateTransitionEdge| e.text())
}

impl CodeGenerator {
    /// The action's state edges that a create pattern follows: those of its
    /// type, whose output binding is the pattern's or unnamed.
    pub fn state_transition_edges_for_pattern(&self, pattern: &CreatePattern) -> (r: Vec<IrStateTransitionEdge>)
        ensures
            edges_text(r@) == edges_text(edges_for_pattern(self.current_state_transition_edges@, pattern.ty@, pattern.binding@)),
    {
        let edges = &self.current_state_transition_edges;
        let mut out: Vec<IrStateTransitionEdge> = Vec::new();
        let mut i: usize = 0;
        assert(edges@.subrange(0, 0) =~= Seq::<IrStateTransitionEdge>::empty());
        assert(edges_text(out@) =~= edges_text(edges_for_pattern(edges@.subrange(0, 0), pattern.ty@, pattern.binding@)));
        while i < edges.len()
            invariant
                i <= edges@.len(),
                edges_text(out@) == edges_text(edges_for_pattern(edges@.subrange(0, i as int), pattern.ty@, pattern.binding@)),
            decreases edges@.len() - i,
        {
            let e = &edges[i];
            let binding_ok = match &e.output_binding {
                Some(b) => strings_eq(b, &pattern.binding),
                None => true,
            };
            let ghost pre = edges_for_pattern(edges@.subrange(0, i as int), pattern.ty@, pattern.binding@);
            assert(edges@.subrange(0, i + 1).drop_last() =~= edges@.subrange(0, i as int));
            if strings_eq(&e.ty_name, &pattern.ty) && binding_ok {
                let ghost before = out@;
                let c = e.clone();
                out.push(c);
                assert(edges_text(out@) =~= edges_text(before).push(c.text()));
                assert(edges_text(pre.push(*e)) =~= edges_text(pre).push(e.text()));
            }
            i = i + 1;
        }
        assert(edges@.subrange(0, edges@.len() as int) =~= edges@);
        out
    }
}

/// The descriptor lines of one field: its name's byte length, its name, an
/// alignment, and its type id.
pub open spec fn field_lines(f: IrField) -> Seq<Seq<char>> {
    spec_emit_lines(".byte "@ + dec_nat((vstd::utf8::encode_utf8(f.name@).len() as usize) as nat)) + spec_emit_lines(
        ".ascii \""@ + f.name@ + "\""@,
    ) + spec_emit_lines(".align 3"@) + spec_emit_lines(".word "@ + dec_nat(spec_type_id(f.ty) as nat))
}

fn field_len_line(field: &IrField) -> (r: String)
    ensures
        r@ == ".byte "@ + dec_nat((vstd::utf8::encode_utf8(field.name@).len() as usize) as nat),
{
    let mut b = String::new();
    string_push_str(&mut b, ".byte ");
    push_decimal_u128(&mut b, field.name.as_str().len() as u128);
    assert(b@ =~= ".byte "@ + dec_nat((vstd::utf8::encode_utf8(field.name@).len() as usize) as nat));
    b
}

fn field_name_line(field: &IrField) -> (r: String)
    ensures
        r@ == ".ascii \""@ + field.name@ + "\""@,
{
    let mut a = String::new();
    string_push_str(&mut a, ".ascii \"");
    string_push_str(&mut a, field.name.as_str());
    string_push_str(&mut a, "\"");
    assert(a@ =~= ".ascii \""@ + field.name@ + "\""@);
    a
}

fn field_type_line(id: u32) -> (r: String)
    ensures
        r@ == ".word "@ + dec_nat(id as nat),
{
    let mut w = String::new();
    string_push_str(&mut w, ".word ");
    push_decimal_u128(&mut w, id as u128);
    w
}

/// The descriptor lines of each field in turn.
pub open spec fn field_desc_lines(fields: Seq<IrField>) -> Seq<Seq<char>>
    decreases fields.len(),
{
    if fields.len() == 0 {
        Seq::empty()
    } else {
        field_desc_lines(fields.drop_last()) + field_lines(fields.last())
    }
}

/// The read-only descriptor of a type: its field count, then each field.
pub open spec fn type_desc_lines(def: IrTypeDef) -> Seq<Seq<char>> {
    seq![".section .rodata"@, "__type_desc_"@ + def.name@ + ":"@] + spec_emit_lines(".word "@ + dec_nat(def.fields@.len()))
        + field_desc_lines(def.fields@)
}

impl CodeGenerator {
    /// Emits the descriptor lines of one field.
    fn emit_field_desc(&mut self, field: &IrField)
        ensures
            final(self).text_appended(old(self), field_lines(*field)),
    {
        let ghost l0 = self.lines();
        let b = field_len_line(field);
        let a = field_name_line(field);
        let w = field_type_line(self.type_id(&field.ty));
        self.emit(b.as_str());
        self.emit(a.as_str());
        self.emit(".align 3");
        self.emit(w.as_str());
        assert(self.lines() =~= l0 + field_lines(*field));
    }

    /// Emits the read-only descriptor of a type definition.
    pub fn generate_type_def(&mut self, type_def: &IrTypeDef) -> (r: Result<(), CompileError>)
        ensures
            r is Ok,
            final(self).text_appended(old(self), type_desc_lines(*type_def)),
    {
        let ghost start = self.lines();
        self.emit_section(".rodata");
        let mut label = String::new();
        string_push_str(&mut label, "__type_desc_");
        string_push_str(&mut label, type_def.name.as_str());
        self.emit_label(label.as_str());
        let mut count = String::new();
        string_push_str(&mut count, ".word ");
        push_decimal_u128(&mut count, type_def.fields.len() as u128);
        self.emit(count.as_str());
        proof {
            reveal_strlit(".section ");
            reveal_strlit(".rodata");
            reveal_strlit(".section .rodata");
            assert(".section "@ + ".rodata"@ =~= ".section .rodata"@);
        }
        let fields = &type_def.fields;
        let mut i: usize = 0;
        assert(fields@.subrange(0, 0) =~= Seq::<IrField>::empty());
        assert(self.lines() =~= start + seq![".section .rodata"@, "__type_desc_"@ + type_def.name@ + ":"@] + spec_emit_lines(
            ".word "@ + dec_nat(fields@.len()),
        ) + field_desc_lines(fields@.subrange(0, 0)));
        while i < fields.len()
            invariant
                i <= fields@.len(),
                self.lines() == start + seq![".section .rodata"@, "__type_desc_"@ + type_def.name@ + ":"@] + spec_emit_lines(
                    ".word "@ + dec_nat(fields@.len()),
                ) + field_desc_lines(fields@.subrange(0, i as int)),
                self.same_state(old(self)),
                self.next_runtime_label == old(self).next_runtime_label,
                self.const_data_entries == old(self).const_data_entries,
            decreases fields@.len() - i,
        {
            let ghost before = self.lines();
            self.emit_field_desc(&fields[i]);
            let ghost f = fields@[i as int];
            assert(fields@.subrange(0, i + 1).drop_last() =~= fields@.subrange(0, i as int));
            assert(fields@.subrange(0, i + 1).last() == f);
            assert(self.lines() =~= start + seq![".section .rodata"@, "__type_desc_"@ + type_def.name@ + ":"@] + spec_emit_lines(
                ".word "@ + dec_nat(fields@.len()),
            ) + field_desc_lines(fields@.subrange(0, i + 1)));
            i = i + 1;
        }
        assert(fields@.subrange(0, fields@.len() as int) =~= fields@);
        assert(self.lines() =~= start + type_desc_lines(*type_def));
        Ok(())
    }
}

/// The runtime helpers that return a 32-byte hash.
pub open spec fn is_fixed_hash_helper(func: Seq<char>) -> bool {
    func == "__ckb_hash_chain"@ || func == "__ckb_hash_blake2b"@
}

/// Whether `func` is a runtime helper that returns a 32-byte hash.
pub fn is_ckb_fixed_hash_helper(func: &str) -> (r: bool)
    ensures
        r == is_fixed_hash_helper(func@),
{
    let chars = str_chars(func);
    chars_eq_str(chars.as_slice(), "__ckb_hash_chain") || chars_eq_str(chars.as_slice(), "__ckb_hash_blake2b")
}

/// The destination of an instruction that may hold a wide value.
pub open spec fn wide_dest(inst: IrInstruction) -> Option<IrVar> {
    match inst {
        IrInstruction::LoadConst { dest, .. } => Some(dest),
        IrInstruction::LoadVar { dest, .. } => Some(dest),
        IrInstruction::Unary { dest, .. } => Some(dest),
        IrInstruction::FieldAccess { dest, .. } => Some(dest),
        IrInstruction::Index { dest, .. } => Some(dest),
        IrInstruction::Length { dest, .. } => Some(dest),
        IrInstruction::TypeHash { dest, .. } => Some(dest),
        IrInstruction::Create { dest, .. } => Some(dest),
        IrInstruction::CreateUnique { dest, .. } => Some(dest),
        IrInstruction::ReplaceUnique { dest, .. } => Some(dest),
        IrInstruction::Transfer { dest, .. } => Some(dest),
        IrInstruction::Claim { dest, .. } => Some(dest),
        IrInstruction::Settle { dest, .. } => Some(dest),
        IrInstruction::ReadRef { dest, .. } => Some(dest),
        IrInstruction::CollectionCapacity { dest, .. } => Some(dest),
        IrInstruction::CollectionContains { dest, .. } => Some(dest),
        IrInstruction::CollectionRemove { dest, .. } => Some(dest),
        IrInstruction::CollectionPop { dest, .. } => Some(dest),
        IrInstruction::CollectionNew { dest, .. } => Some(dest),
        IrInstruction::Move { dest, .. } => Some(dest),
        IrInstruction::Cast { dest, .. } => Some(dest),
        IrInstruction::Tuple { dest, .. } => Some(dest),
        IrInstruction::Binary { dest, .. } => Some(dest),
        IrInstruction::Call { dest, .. } => dest,
        _ => None,
    }
}

/// The fixed-byte local sizes after an instruction: a 128-bit destination
/// takes 16 bytes, the hash returned by a hash helper 32.
pub open spec fn fixed_byte_locals_after(m: Map<usize, usize>, inst: IrInstruction) -> Map<usize, usize> {
    let m1 = match inst {
        IrInstruction::Call { dest: Some(d), func, .. } => if is_fixed_hash_helper(func@) && d.ty is Hash {
            m.insert(d.id, 32)
        } else {
            m
        },
        _ => m,
    };
    match wide_dest(inst) {
        Some(d) => if d.ty is U128 {
            m1.insert(d.id, 16)
        } else {
            m1
        },
        None => m1,
    }
}

impl CodeGenerator {
    /// Records the stack bytes an instruction's destination needs when it is
    /// held as fixed bytes rather than in a register.
    pub fn record_instruction_fixed_byte_local(&self, instruction: &IrInstruction, offsets: &mut HashMap<usize, usize>)
        ensures
            final(offsets)@ == fixed_byte_locals_after(old(offsets)@, *instruction),
    {
        if let IrInstruction::Call { dest: Some(dest), func, .. } = instruction {
            if is_ckb_fixed_hash_helper(func.as_str()) && matches!(dest.ty, IrType::Hash) {
                offsets.insert(dest.id, 32);
            }
        }
        let dest: Option<&IrVar> = match instruction {
            IrInstruction::LoadConst { dest, .. }
            | IrInstruction::LoadVar { dest, .. }
            | IrInstruction::Unary { dest, .. }
            | IrInstruction::FieldAccess { dest, .. }
            | IrInstruction::Index { dest, .. }
            | IrInstruction::Length { dest, .. }
            | IrInstruction::TypeHash { dest, .. }
            | IrInstruction::Create { dest, .. }
            | IrInstruction::CreateUnique { dest, .. }
            | IrInstruction::ReplaceUnique { dest, .. }
            | IrInstruction::Transfer { dest, .. }
            | IrInstruction::Claim { dest, .. }
            | IrInstruction::Settle { dest, .. }
            | IrInstruction::ReadRef { dest, .. }
            | IrInstruction::CollectionCapacity { dest, .. }
            | IrInstruction::CollectionContains { dest, .. }
            | IrInstruction::CollectionRemove { dest, .. }
            | IrInstruction::CollectionPop { dest, .. }
            | IrInstruction::CollectionNew { dest, .. }
            | IrInstruction::Move { dest, .. }
            | IrInstruction::Cast { dest, .. }
            | IrInstruction::Tuple { dest, .. }
            | IrInstruction::Binary { dest, .. } => Some(dest),
            IrInstruction::Call { dest, .. } => match dest {
                Some(d) => Some(d),
                None => None,
            },
            IrInstruction::StoreVar { .. }
            | IrInstruction::Consume { .. }
            | IrInstruction::Destroy { .. }
            | IrInstruction::CellMetadataEquality { .. }
            | IrInstruction::CollectionPush { .. }
            | IrInstruction::CollectionExtend { .. }
            | IrInstruction::CollectionClear { .. }
            | IrInstruction::CollectionReverse { .. }
            | IrInstruction::CollectionTruncate { .. }
            | IrInstruction::CollectionSwap { .. }
            | IrInstruction::CollectionInsert { .. }
            | IrInstruction::CollectionSet { .. } => None,
        };
        if let Some(d) = dest {
            if matches!(d.ty, IrType::U128) {
                offsets.insert(d.id, 16);
            }
        }
    }
}

/// The lines that load an operand into `reg`, given the pool before.
pub open spec fn operand_load_lines(reg: Seq<char>, operand: IrOperand, pool: Seq<(Seq<char>, Seq<u8>)>) -> Seq<Seq<char>> {
    match immediate_of(operand) {
        Some(n) => spec_emit_lines(li_body(reg, n)),
        None => match operand {
            IrOperand::Var(v) => stack_access_lines("ld"@, reg, v.id * 8),
            IrOperand::Const(c) => match spec_fixed_byte_const_bytes(c) {
                Some(b) => spec_emit_lines("la "@ + reg + ", "@ + pooled_label(pool, b)),
                None => spec_emit_lines(li_body(reg, 0)),
            },
        },
    }
}

/// The pool after loading an operand: a byte constant is pooled, nothing else changes it.
pub open spec fn operand_pool_after(operand: IrOperand, pool: Seq<(Seq<char>, Seq<u8>)>) -> Seq<(Seq<char>, Seq<u8>)> {
    match (immediate_of(operand), operand) {
        (None, IrOperand::Const(c)) => match spec_fixed_byte_const_bytes(c) {
            Some(b) => pool_after(pool, b),
            None => pool,
        },
        _ => pool,
    }
}

fn bytes_eq(a: &Vec<u8>, b: &Vec<u8>) -> (r: bool)
    ensures
        r == (a@ == b@),
{
    if a.len() != b.len() {
        return false;
    }
    let mut i: usize = 0;
    while i < a.len()
        invariant
            i <= a@.len(),
            a@.len() == b@.len(),
            forall|k: int| 0 <= k < i ==> a@[k] == b@[k],
        decreases a@.len() - i,
    {
        if a[i] != b[i] {
            return false;
        }
        i = i + 1;
    }
    assert(a@ =~= b@);
    true
}

} // verus!
