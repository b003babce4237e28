//! Facts the code generator reads off IR items: policy labels, constant
//! types, pure constant functions, entry points, consumed operands and the
//! layout of tuple fields.

use vstd::prelude::*;
use crate::codegen::widths::{
    length_fits, opt_usize, spec_fixed_byte_width, spec_fixed_scalar_width, spec_named_type_name, spec_static_length,
    static_len_usize, byte_width_fits, fixed_byte_width, fixed_scalar_width, named_type_name, type_static_length,
};
use crate::ir::{
    const_view, ConstView, IrBlock, IrBody, IrConst, IrDestructionPolicy, IrIdentityPolicy, IrInstruction, IrItem, IrModule,
    IrOperand, IrParam, IrTerminator, IrType, IrVar,
};
use crate::names::NameMap;
use crate::text::{chars_eq_str, str_chars, string_push_str};

verus! {

broadcast use vstd::std_specs::vec::group_vec_axioms;

/// `prefix`, `x`, `)`.
pub open spec fn wrapped(prefix: Seq<char>, x: Seq<char>) -> Seq<char> {
    prefix + x + ")"@
}

fn wrap(prefix: &str, x: &String) -> (s: String)
    ensures
        s@ == wrapped(prefix@, x@),
{
    let mut s = String::new();
    string_push_str(&mut s, prefix);
    string_push_str(&mut s, x.as_str());
    string_push_str(&mut s, ")");
    assert(s@ =~= wrapped(prefix@, x@));
    s
}

fn owned(x: &str) -> (s: String)
    ensures
        s@ == x@,
{
    let mut s = String::new();
    string_push_str(&mut s, x);
    assert(s@ =~= x@);
    s
}

pub open spec fn spec_identity_label(p: IrIdentityPolicy) -> Seq<char> {
    match p {
        IrIdentityPolicy::NoIdentity => "none"@,
        IrIdentityPolicy::CkbTypeId => "ckb_type_id"@,
        IrIdentityPolicy::Field(path) => wrapped("field("@, path@),
        IrIdentityPolicy::ScriptArgs => "script_args"@,
        IrIdentityPolicy::SingletonType => "singleton_type"@,
    }
}

/// The label of an identity policy in generated comments.
pub fn identity_policy_label(identity: &IrIdentityPolicy) -> (r: String)
    ensures
        r@ == spec_identity_label(*identity),
{
    match identity {
        IrIdentityPolicy::NoIdentity => owned("none"),
        IrIdentityPolicy::CkbTypeId => owned("ckb_type_id"),
        IrIdentityPolicy::Field(path) => wrap("field(", path),
        IrIdentityPolicy::ScriptArgs => owned("script_args"),
        IrIdentityPolicy::SingletonType => owned("singleton_type"),
    }
}

pub open spec fn spec_destruction_label(p: IrDestructionPolicy) -> Seq<char> {
    match p {
        IrDestructionPolicy::Default => "default"@,
        IrDestructionPolicy::SingletonType => "singleton_type"@,
        IrDestructionPolicy::Unique { identity } => wrapped("unique("@, identity@),
        IrDestructionPolicy::Instance { identity_field } => wrapped("instance("@, identity_field@),
        IrDestructionPolicy::BurnAmount { field } => wrapped("burn_amount("@, field@),
    }
}

/// The label of a destruction policy in generated comments.
pub fn destruction_policy_label(policy: &IrDestructionPolicy) -> (r: String)
    ensures
        r@ == spec_destruction_label(*policy),
{
    match policy {
        IrDestructionPolicy::Default => owned("default"),
        IrDestructionPolicy::SingletonType => owned("singleton_type"),
        IrDestructionPolicy::Unique { identity } => wrap("unique(", identity),
        IrDestructionPolicy::Instance { identity_field } => wrap("instance(", identity_field),
        IrDestructionPolicy::BurnAmount { field } => wrap("burn_amount(", field),
    }
}

/// Whether destroying under a policy must prove that no output of the type remains.
pub fn destroy_policy_uses_output_absence_scan(policy: &IrDestructionPolicy) -> (r: bool)
    ensures
        r == (match *policy {
            IrDestructionPolicy::Default => true,
            IrDestructionPolicy::SingletonType => true,
            IrDestructionPolicy::Unique { identity } => identity@ == "type_id"@ || identity@ == "ckb_type_id"@,
            _ => false,
        }),
{
    match policy {
        IrDestructionPolicy::Default | IrDestructionPolicy::SingletonType => true,
        IrDestructionPolicy::Unique { identity } => {
            let c = str_chars(identity.as_str());
            chars_eq_str(c.as_slice(), "type_id") || chars_eq_str(c.as_slice(), "ckb_type_id")
        },
        _ => false,
    }
}

/// The type of a constant; an array takes its first element's type, `u8` when empty.
pub open spec fn spec_const_type(c: IrConst) -> IrType
    decreases c,
{
    match c {
        IrConst::Unit => IrType::Unit,
        IrConst::U8(_) => IrType::U8,
        IrConst::U16(_) => IrType::U16,
        IrConst::U32(_) => IrType::U32,
        IrConst::U64(_) => IrType::U64,
        IrConst::U128(_) => IrType::U128,
        IrConst::Bool(_) => IrType::Bool,
        IrConst::Address(_) => IrType::Address,
        IrConst::Hash(_) => IrType::Hash,
        IrConst::Array(values) => IrType::Array(
            Box::new(if values@.len() > 0 { spec_const_type(values@[0]) } else { IrType::U8 }),
            values@.len() as usize,
        ),
    }
}

pub fn const_ir_type(value: &IrConst) -> (r: IrType)
    ensures
        r == spec_const_type(*value),
    decreases value,
{
    match value {
        IrConst::Unit => IrType::Unit,
        IrConst::U8(_) => IrType::U8,
        IrConst::U16(_) => IrType::U16,
        IrConst::U32(_) => IrType::U32,
        IrConst::U64(_) => IrType::U64,
        IrConst::U128(_) => IrType::U128,
        IrConst::Bool(_) => IrType::Bool,
        IrConst::Address(_) => IrType::Address,
        IrConst::Hash(_) => IrType::Hash,
        IrConst::Array(values) => {
            let elem = if values.len() > 0 {
                proof {
                    assert(decreases_to!(*value => values@[0]));
                }
                const_ir_type(&values[0])
            } else {
                IrType::U8
            };
            IrType::Array(Box::new(elem), values.len())
        },
    }
}

/// The operand variable that an instruction consumes, when it is of a named type.
pub open spec fn spec_consumed_operand(i: IrInstruction) -> Option<IrVar> {
    let op = match i {
        IrInstruction::Consume { operand } => Some(operand),
        IrInstruction::Transfer { operand, .. } => Some(operand),
        IrInstruction::Destroy { operand, .. } => Some(operand),
        IrInstruction::Settle { operand, .. } => Some(operand),
        IrInstruction::ReplaceUnique { operand, .. } => Some(operand),
        IrInstruction::Claim { receipt, .. } => Some(receipt),
        _ => None,
    };
    match op {
        Some(IrOperand::Var(v)) => if spec_named_type_name(v.ty) is Some { Some(v) } else { None },
        _ => None,
    }
}

pub fn consumed_operand_var(instruction: &IrInstruction) -> (r: Option<&IrVar>)
    ensures
        r matches Some(v) ==> spec_consumed_operand(*instruction) == Some(*v),
        r is None ==> spec_consumed_operand(*instruction) is None,
{
    let operand = match instruction {
        IrInstruction::Consume { operand } => operand,
        IrInstruction::Transfer { operand, .. } => operand,
        IrInstruction::Destroy { operand, .. } => operand,
        IrInstruction::Settle { operand, .. } => operand,
        IrInstruction::ReplaceUnique { operand, .. } => operand,
        IrInstruction::Claim { receipt, .. } => receipt,
        _ => return None,
    };
    match operand {
        IrOperand::Var(var) => if named_type_name(&var.ty).is_some() { Some(var) } else { None },
        _ => None,
    }
}

/// The constant a pure function body returns without computing: a single
/// block that returns a constant, or loads one and returns it.
pub open spec fn spec_pure_const_return(body: IrBody) -> Option<IrConst> {
    if body.blocks@.len() != 1 {
        None
    } else {
        let block = body.blocks@[0];
        if block.instructions@.len() == 0 {
            match block.terminator {
                IrTerminator::Return(Some(IrOperand::Const(v))) => Some(v),
                _ => None,
            }
        } else if block.instructions@.len() == 1 {
            match (block.instructions@[0], block.terminator) {
                (IrInstruction::LoadConst { dest, value }, IrTerminator::Return(Some(IrOperand::Var(var)))) => if dest.id
                    == var.id {
                    Some(value)
                } else {
                    None
                },
                _ => None,
            }
        } else {
            None
        }
    }
}

pub fn pure_const_return(body: &IrBody) -> (r: Option<IrConst>)
    ensures
        r is Some <==> spec_pure_const_return(*body) is Some,
        r matches Some(c) ==> const_view(c) == const_view(spec_pure_const_return(*body)->0),
{
    if body.blocks.len() != 1 {
        return None;
    }
    let block = &body.blocks[0];
    if block.instructions.len() == 0 {
        match &block.terminator {
            IrTerminator::Return(Some(IrOperand::Const(v))) => Some(v.clone_const()),
            _ => None,
        }
    } else if block.instructions.len() == 1 {
        match (&block.instructions[0], &block.terminator) {
            (IrInstruction::LoadConst { dest, value }, IrTerminator::Return(Some(IrOperand::Var(var)))) => if dest.id
                == var.id {
                Some(value.clone_const())
            } else {
                None
            },
            _ => None,
        }
    } else {
        None
    }
}

impl IrConst {
    /// A copy of the constant.
    pub fn clone_const(&self) -> (r: IrConst)
        ensures
            const_view(r) == const_view(*self),
    {
        self.clone()
    }
}

/// The pure functions of a module that return a constant, by name; a later
/// function shadows an earlier one of the same name.
pub open spec fn spec_pure_consts(items: Seq<IrItem>, k: int) -> Seq<(Seq<char>, ConstView)>
    decreases k,
{
    if k <= 0 {
        Seq::empty()
    } else {
        let prev = spec_pure_consts(items, k - 1);
        match items[k - 1] {
            IrItem::PureFn(f) => if spec_pure_const_return(f.body) is Some {
                prev.push((f.name@, const_view(spec_pure_const_return(f.body)->0)))
            } else {
                prev
            },
            _ => prev,
        }
    }
}

pub fn collect_pure_const_returns(ir: &IrModule) -> (r: NameMap<IrConst>)
    ensures
        r.pairs().len() == spec_pure_consts(ir.items@, ir.items@.len() as int).len(),
        forall|j: int| 0 <= j < r.pairs().len() ==> (#[trigger] r.pairs()[j]).0 == spec_pure_consts(ir.items@,
            ir.items@.len() as int)[j].0 && const_view(r.pairs()[j].1) == spec_pure_consts(ir.items@, ir.items@.len() as int)[j].1,
{
    let mut m: NameMap<IrConst> = NameMap::new();
    let mut i: usize = 0;
    while i < ir.items.len()
        invariant
            i <= ir.items@.len(),
            m.pairs().len() == spec_pure_consts(ir.items@, i as int).len(),
            forall|j: int| 0 <= j < m.pairs().len() ==> (#[trigger] m.pairs()[j]).0 == spec_pure_consts(ir.items@,
                i as int)[j].0 && const_view(m.pairs()[j].1) == spec_pure_consts(ir.items@, i as int)[j].1,
        decreases ir.items@.len() - i,
    {
        if let IrItem::PureFn(f) = &ir.items[i] {
            if let Some(v) = pure_const_return(&f.body) {
                m.insert(f.name.clone(), v);
            }
        }
        i = i + 1;
    }
    m
}

/// The entry point of a module: an action named `main`, else the first
/// action without parameters, else the first action, else the first lock.
pub open spec fn spec_first_entrypoint(items: Seq<IrItem>) -> Option<int> {
    if exists|i: int| 0 <= i < items.len() && #[trigger] is_main_action(items[i]) {
        Some(choose_first(items, |it: IrItem| is_main_action(it), 0))
    } else if exists|i: int| 0 <= i < items.len() && #[trigger] is_paramless_action(items[i]) {
        Some(choose_first(items, |it: IrItem| is_paramless_action(it), 0))
    } else if exists|i: int| 0 <= i < items.len() && #[trigger] is_action(items[i]) {
        Some(choose_first(items, |it: IrItem| is_action(it), 0))
    } else if exists|i: int| 0 <= i < items.len() && #[trigger] is_lock(items[i]) {
        Some(choose_first(items, |it: IrItem| is_lock(it), 0))
    } else {
        None
    }
}

pub open spec fn is_main_action(it: IrItem) -> bool {
    it matches IrItem::Action(a) && a.name@ == "main"@
}

pub open spec fn is_paramless_action(it: IrItem) -> bool {
    it matches IrItem::Action(a) && a.params@.len() == 0
}

pub open spec fn is_action(it: IrItem) -> bool {
    it is Action
}

pub open spec fn is_lock(it: IrItem) -> bool {
    it is Lock
}

/// Index of the first item from `i` that satisfies `p`.
pub open spec fn choose_first(items: Seq<IrItem>, p: spec_fn(IrItem) -> bool, i: int) -> int
    decreases items.len() - i,
{
    if i < 0 || i >= items.len() || p(items[i]) {
        i
    } else {
        choose_first(items, p, i + 1)
    }
}

fn find_item(items: &Vec<IrItem>, kind: u8) -> (r: Option<usize>)
    requires
        kind < 4,
    ensures
        ({
            let p = if kind == 0 {
                |it: IrItem| is_main_action(it)
            } else if kind == 1 {
                |it: IrItem| is_paramless_action(it)
            } else if kind == 2 {
                |it: IrItem| is_action(it)
            } else {
                |it: IrItem| is_lock(it)
            };
            &&& r matches Some(i) ==> i < items@.len() && choose_first(items@, p, 0) == i as int && p(items@[i as int])
            &&& r is None ==> forall|j: int| 0 <= j < items@.len() ==> !p(#[trigger] items@[j])
        }),
{
    let ghost p = if kind == 0 {
        |it: IrItem| is_main_action(it)
    } else if kind == 1 {
        |it: IrItem| is_paramless_action(it)
    } else if kind == 2 {
        |it: IrItem| is_action(it)
    } else {
        |it: IrItem| is_lock(it)
    };
    let mut i: usize = 0;
    while i < items.len()
        invariant
            i <= items@.len(),
            kind < 4,
            p == (if kind == 0 {
                |it: IrItem| is_main_action(it)
            } else if kind == 1 {
                |it: IrItem| is_paramless_action(it)
            } else if kind == 2 {
                |it: IrItem| is_action(it)
            } else {
                |it: IrItem| is_lock(it)
            }),
            choose_first(items@, p, 0) == choose_first(items@, p, i as int),
            forall|j: int| 0 <= j < i ==> !p(#[trigger] items@[j]),
        decreases items@.len() - i,
    {
        let hit = match &items[i] {
            IrItem::Action(a) => {
                if kind == 0 {
                    let c = str_chars(a.name.as_str());
                    chars_eq_str(c.as_slice(), "main")
                } else if kind == 1 {
                    a.params.len() == 0
                } else {
                    kind == 2
                }
            },
            IrItem::Lock(_) => kind == 3,
            _ => false,
        };
        if hit {
            return Some(i);
        }
        i = i + 1;
    }
    None
}

/// The name and parameters of the module's entry point.
pub fn first_entrypoint(ir: &IrModule) -> (r: Option<(&str, &[IrParam])>)
    ensures
        r is Some <==> spec_first_entrypoint(ir.items@) is Some,
        r matches Some((name, params)) ==> (match ir.items@[spec_first_entrypoint(ir.items@)->0] {
            IrItem::Action(a) => name@ == a.name@ && params@ == a.params@,
            IrItem::Lock(l) => name@ == l.name@ && params@ == l.params@,
            _ => false,
        }),
{
    let mut kind: u8 = 0;
    while kind < 4
        invariant
            kind <= 4,
            kind >= 1 ==> forall|j: int| 0 <= j < ir.items@.len() ==> !is_main_action(#[trigger] ir.items@[j]),
            kind >= 2 ==> forall|j: int| 0 <= j < ir.items@.len() ==> !is_paramless_action(#[trigger] ir.items@[j]),
            kind >= 3 ==> forall|j: int| 0 <= j < ir.items@.len() ==> !is_action(#[trigger] ir.items@[j]),
            kind >= 4 ==> forall|j: int| 0 <= j < ir.items@.len() ==> !is_lock(#[trigger] ir.items@[j]),
        decreases 4 - kind,
    {
        if let Some(i) = find_item(&ir.items, kind) {
            match &ir.items[i] {
                IrItem::Action(a) => {
                    return Some((a.name.as_str(), a.params.as_slice()));
                },
                IrItem::Lock(l) => {
                    return Some((l.name.as_str(), l.params.as_slice()));
                },
                _ => {
                    return None;
                },
            }
        }
        kind = kind + 1;
    }
    None
}

} // verus!
