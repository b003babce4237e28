//! The lowered intermediate representation consumed by the code generator.

use vstd::prelude::*;
use std::collections::HashMap;

verus! {

/// Value types of the IR.
#[derive(Debug, PartialEq, Eq)]
pub enum IrType {
    Unit,
    Bool,
    U8,
    U16,
    U32,
    U64,
    U128,
    Address,
    Hash,
    Array(Box<IrType>, usize),
    Tuple(Vec<IrType>),
    Ref(Box<IrType>),
    MutRef(Box<IrType>),
    Named(String),
}

/// Compile-time constants.
#[derive(Debug, PartialEq, Eq)]
pub enum IrConst {
    Unit,
    Bool(bool),
    U8(u8),
    U16(u16),
    U32(u32),
    U64(u64),
    U128(u128),
    Address([u8; 32]),
    Hash([u8; 32]),
    Array(Vec<IrConst>),
}

/// Types built without tuples, whose clones are equal to them.
pub open spec fn tuple_free(t: IrType) -> bool
    decreases t,
{
    match t {
        IrType::Tuple(_) => false,
        IrType::Array(inner, _) => tuple_free(*inner),
        IrType::Ref(inner) => tuple_free(*inner),
        IrType::MutRef(inner) => tuple_free(*inner),
        _ => true,
    }
}

/// An IR type as a mathematical value, with the elements of a tuple as a sequence.
pub ghost enum TypeView {
    Unit,
    Bool,
    U8,
    U16,
    U32,
    U64,
    U128,
    Address,
    Hash,
    Array(Box<TypeView>, usize),
    Tuple(Seq<TypeView>),
    Ref(Box<TypeView>),
    MutRef(Box<TypeView>),
    Named(Seq<char>),
}

/// The mathematical value of a type.
pub open spec fn type_view(t: IrType) -> TypeView
    decreases t, 1nat,
{
    match t {
        IrType::Unit => TypeView::Unit,
        IrType::Bool => TypeView::Bool,
        IrType::U8 => TypeView::U8,
        IrType::U16 => TypeView::U16,
        IrType::U32 => TypeView::U32,
        IrType::U64 => TypeView::U64,
        IrType::U128 => TypeView::U128,
        IrType::Address => TypeView::Address,
        IrType::Hash => TypeView::Hash,
        IrType::Array(inner, n) => TypeView::Array(Box::new(type_view(*inner)), n),
        IrType::Tuple(items) => TypeView::Tuple(types_view(items@, items@.len() as int)),
        IrType::Ref(inner) => TypeView::Ref(Box::new(type_view(*inner))),
        IrType::MutRef(inner) => TypeView::MutRef(Box::new(type_view(*inner))),
        IrType::Named(name) => TypeView::Named(name@),
    }
}

/// The mathematical values of the first `k` types.
pub open spec fn types_view(s: Seq<IrType>, k: int) -> Seq<TypeView>
    decreases s, 0nat, k,
{
    if k <= 0 || k > s.len() {
        Seq::empty()
    } else {
        types_view(s, k - 1).push(type_view(s[k - 1]))
    }
}

/// The views of the first `k` types depend only on those types.
pub proof fn lemma_types_view_prefix(s: Seq<IrType>, t: Seq<IrType>, k: int)
    requires
        0 <= k <= s.len(),
        k <= t.len(),
        forall|j: int| 0 <= j < k ==> s[j] == t[j],
    ensures
        types_view(s, k) == types_view(t, k),
    decreases k,
{
    if k > 0 {
        lemma_types_view_prefix(s, t, k - 1);
    }
}

impl Clone for IrType {
    #[verifier::loop_isolation(false)]
    fn clone(&self) -> (r: Self)
        ensures
            tuple_free(*self) ==> r == *self,
            type_view(r) == type_view(*self),
        decreases self,
    {
        broadcast use vstd::std_specs::vec::group_vec_axioms;
        match self {
            IrType::Unit => IrType::Unit,
            IrType::Bool => IrType::Bool,
            IrType::U8 => IrType::U8,
            IrType::U16 => IrType::U16,
            IrType::U32 => IrType::U32,
            IrType::U64 => IrType::U64,
            IrType::U128 => IrType::U128,
            IrType::Address => IrType::Address,
            IrType::Hash => IrType::Hash,
            IrType::Array(inner, n) => IrType::Array(Box::new((**inner).clone()), *n),
            IrType::Tuple(items) => {
                let mut out: Vec<IrType> = Vec::new();
                let mut i: usize = 0;
                while i < items.len()
                    invariant
                        i <= items@.len(),
                        out@.len() == i,
                        types_view(out@, i as int) == types_view(items@, i as int),
                    decreases items@.len() - i,
                {
                    proof {
                        assert(decreases_to!(*items => items[i as int]));
                        assert(decreases_to!(*self => items[i as int]));
                    }
                    let c = items[i].clone();
                    let ghost before = out@;
                    out.push(c);
                    proof {
                        lemma_types_view_prefix(out@, before, i as int);
                    }
                    i = i + 1;
                }
                IrType::Tuple(out)
            },
            IrType::Ref(inner) => IrType::Ref(Box::new((**inner).clone())),
            IrType::MutRef(inner) => IrType::MutRef(Box::new((**inner).clone())),
            IrType::Named(name) => IrType::Named(name.clone()),
        }
    }
}

/// A constant as a mathematical value, with the items of an array as a sequence.
pub ghost enum ConstView {
    Unit,
    Bool(bool),
    U8(u8),
    U16(u16),
    U32(u32),
    U64(u64),
    U128(u128),
    Address(Seq<u8>),
    Hash(Seq<u8>),
    Array(Seq<ConstView>),
}

/// The mathematical value of a constant.
pub open spec fn const_view(c: IrConst) -> ConstView
    decreases c, 1nat,
{
    match c {
        IrConst::Unit => ConstView::Unit,
        IrConst::Bool(b) => ConstView::Bool(b),
        IrConst::U8(v) => ConstView::U8(v),
        IrConst::U16(v) => ConstView::U16(v),
        IrConst::U32(v) => ConstView::U32(v),
        IrConst::U64(v) => ConstView::U64(v),
        IrConst::U128(v) => ConstView::U128(v),
        IrConst::Address(b) => ConstView::Address(b@),
        IrConst::Hash(b) => ConstView::Hash(b@),
        IrConst::Array(items) => ConstView::Array(consts_view(items@, items@.len() as int)),
    }
}

/// The mathematical values of the first `k` constants.
pub open spec fn consts_view(s: Seq<IrConst>, k: int) -> Seq<ConstView>
    decreases s, 0nat, k,
{
    if k <= 0 || k > s.len() {
        Seq::empty()
    } else {
        consts_view(s, k - 1).push(const_view(s[k - 1]))
    }
}

/// The views of the first `k` constants depend only on those constants.
pub proof fn lemma_consts_view_prefix(s: Seq<IrConst>, t: Seq<IrConst>, k: int)
    requires
        0 <= k <= s.len(),
        k <= t.len(),
        forall|j: int| 0 <= j < k ==> s[j] == t[j],
    ensures
        consts_view(s, k) == consts_view(t, k),
    decreases k,
{
    if k > 0 {
        lemma_consts_view_prefix(s, t, k - 1);
    }
}

impl Clone for IrConst {
    #[verifier::loop_isolation(false)]
    fn clone(&self) -> (r: Self)
        ensures
            !(self is Array) ==> r == *self,
            r is Array <==> self is Array,
            const_view(r) == const_view(*self),
        decreases self,
    {
        broadcast use vstd::std_specs::vec::group_vec_axioms;
        match self {
            IrConst::Unit => IrConst::Unit,
            IrConst::Bool(b) => IrConst::Bool(*b),
            IrConst::U8(v) => IrConst::U8(*v),
            IrConst::U16(v) => IrConst::U16(*v),
            IrConst::U32(v) => IrConst::U32(*v),
            IrConst::U64(v) => IrConst::U64(*v),
            IrConst::U128(v) => IrConst::U128(*v),
            IrConst::Address(b) => IrConst::Address(*b),
            IrConst::Hash(b) => IrConst::Hash(*b),
            IrConst::Array(items) => {
                let mut out: Vec<IrConst> = Vec::new();
                let mut i: usize = 0;
                while i < items.len()
                    invariant
                        i <= items@.len(),
                        out@.len() == i,
                        consts_view(out@, i as int) == consts_view(items@, i as int),
                    decreases items@.len() - i,
                {
                    proof {
                        assert(decreases_to!(*items => items[i as int]));
                        assert(decreases_to!(*self => items[i as int]));
                    }
                    let c = items[i].clone();
                    let ghost before = out@;
                    out.push(c);
                    proof {
                        lemma_consts_view_prefix(out@, before, i as int);
                    }
                    i = i + 1;
                }
                IrConst::Array(out)
            },
        }
    }
}

/// A virtual register: an id, its source name and its type.
#[derive(Debug, Clone, PartialEq, Eq)]
pub struct IrVar {
    pub id: usize,
    pub name: String,
    pub ty: IrType,
}

#[derive(Debug, Clone, PartialEq, Eq)]
pub enum IrOperand {
    Var(IrVar),
    Const(IrConst),
}

/// Where an entry parameter's bytes come from.
#[derive(Debug, Clone, Copy, PartialEq, Eq)]
pub enum ParamSource {
    Default,
    LockArgs,
    Output,
}

#[derive(Debug, Clone, PartialEq, Eq)]
pub struct IrParam {
    pub name: String,
    pub ty: IrType,
    pub is_mut: bool,
    pub is_ref: bool,
    pub is_read_ref: bool,
    pub source: ParamSource,
    pub binding: IrVar,
}

#[derive(Debug, Clone, Copy, PartialEq, Eq)]
pub enum BinaryOp {
    Add,
    Sub,
    Mul,
    Div,
    Mod,
    Eq,
    Ne,
    Lt,
    Le,
    Gt,
    Ge,
    And,
    Or,
}

#[derive(Debug, Clone, Copy, PartialEq, Eq)]
pub enum UnaryOp {
    Neg,
    Not,
    Ref,
    Deref,
}

#[derive(Debug, Clone, Copy, PartialEq, Eq)]
pub enum CellMetadataField {
    Capacity,
    LockHash,
}

/// How a created cell's identity is established.
#[derive(Debug, Clone, PartialEq, Eq)]
pub enum IrIdentityPolicy {
    NoIdentity,
    CkbTypeId,
    Field(String),
    ScriptArgs,
    SingletonType,
}

/// What destroying a cell of a type must prove.
#[derive(Debug, Clone, PartialEq, Eq)]
pub enum IrDestructionPolicy {
    Default,
    SingletonType,
    Unique { identity: String },
    Instance { identity_field: String },
    BurnAmount { field: String },
}

/// A transaction input or cell dependency bound by an action.
#[derive(Debug, Clone, PartialEq, Eq)]
pub struct CellPattern {
    pub operation: String,
    pub type_hash: Option<Vec<u8>>,
    pub binding: String,
    pub fields: Vec<(String, IrOperand)>,
    pub destruction_policy: Option<IrDestructionPolicy>,
}

/// A transaction output materialized by an action.
#[derive(Debug, Clone, PartialEq, Eq)]
pub struct CreatePattern {
    pub operation: String,
    pub ty: String,
    pub binding: String,
    pub fields: Vec<(String, IrOperand)>,
    pub lock: Option<IrOperand>,
    pub output_index: usize,
}

/// How a mutation changes a field.
#[derive(Debug, Clone, Copy, PartialEq, Eq)]
pub enum MutateTransitionOp {
    /// Overwrites the field with the operand.
    Assign,
    Add,
    Sub,
    Append,
}

/// One field change of a mutation: the field, how it changes, and by what.
#[derive(Debug, Clone, PartialEq, Eq)]
pub struct MutateFieldTransition {
    pub field: String,
    pub op: MutateTransitionOp,
    pub operand: IrOperand,
}

/// An input that is replaced by an output of the same type.
#[derive(Debug, Clone, PartialEq, Eq)]
pub struct MutatePattern {
    pub operation: String,
    pub ty: String,
    pub binding: String,
    pub input_index: usize,
    pub output_index: usize,
    /// The fields the output writes, with their new values.
    pub fields: Vec<(String, IrOperand)>,
    /// How each written field changes.
    pub transitions: Vec<MutateFieldTransition>,
    pub preserved_fields: Vec<String>,
}

/// A declared write to a cell field.
#[derive(Debug, Clone, PartialEq, Eq)]
pub struct WriteIntent {
    pub binding: String,
    pub field: String,
}

#[derive(Debug, Clone, PartialEq, Eq)]
pub enum IrInstruction {
    LoadConst { dest: IrVar, value: IrConst },
    LoadVar { dest: IrVar, name: String },
    StoreVar { name: String, src: IrOperand },
    Move { dest: IrVar, src: IrOperand },
    Cast { dest: IrVar, src: IrOperand },
    Unary { dest: IrVar, op: UnaryOp, operand: IrOperand },
    Binary { dest: IrVar, op: BinaryOp, left: IrOperand, right: IrOperand },
    FieldAccess { dest: IrVar, obj: IrOperand, field: String },
    Index { dest: IrVar, arr: IrOperand, idx: IrOperand },
    Length { dest: IrVar, operand: IrOperand },
    TypeHash { dest: IrVar, operand: IrOperand },
    Tuple { dest: IrVar, fields: Vec<IrOperand> },
    Call { dest: Option<IrVar>, func: String, args: Vec<IrOperand> },
    ReadRef { dest: IrVar, ty: String },
    Consume { operand: IrOperand },
    Create { dest: IrVar, pattern: CreatePattern },
    CreateUnique { dest: IrVar, pattern: CreatePattern, identity: IrIdentityPolicy },
    ReplaceUnique { dest: IrVar, operand: IrOperand, pattern: CreatePattern, identity: IrIdentityPolicy },
    Transfer { dest: IrVar, operand: IrOperand, to: IrOperand },
    Claim { dest: IrVar, receipt: IrOperand },
    Settle { dest: IrVar, operand: IrOperand },
    Destroy { operand: IrOperand, policy: IrDestructionPolicy },
    CellMetadataEquality { dest: IrVar, left: IrOperand, right: IrOperand, field: CellMetadataField },
    CollectionNew { dest: IrVar, ty: String, capacity: Option<IrOperand> },
    CollectionPush { collection: IrOperand, value: IrOperand },
    CollectionCapacity { dest: IrVar, collection: IrOperand },
    CollectionExtend { collection: IrOperand, slice: IrOperand },
    CollectionClear { collection: IrOperand },
    CollectionReverse { collection: IrOperand },
    CollectionTruncate { collection: IrOperand, len: IrOperand },
    CollectionSwap { collection: IrOperand, left: IrOperand, right: IrOperand },
    CollectionContains { dest: IrVar, collection: IrOperand, value: IrOperand },
    CollectionRemove { dest: IrVar, collection: IrOperand, index: IrOperand },
    CollectionInsert { collection: IrOperand, index: IrOperand, value: IrOperand },
    CollectionSet { collection: IrOperand, index: IrOperand, value: IrOperand },
    CollectionPop { dest: IrVar, collection: IrOperand },
}

#[derive(Debug, Clone, Copy, PartialEq, Eq)]
pub struct BlockId(pub usize);

#[derive(Debug, Clone, PartialEq, Eq)]
pub enum IrTerminator {
    Return(Option<IrOperand>),
    Jump(BlockId),
    Branch { cond: IrOperand, then_block: BlockId, else_block: BlockId },
}

#[derive(Debug, Clone, PartialEq, Eq)]
pub struct IrBlock {
    pub id: BlockId,
    pub instructions: Vec<IrInstruction>,
    pub terminator: IrTerminator,
}

/// A function body with the cell effects it declares.
#[derive(Debug, Clone, PartialEq, Eq)]
pub struct IrBody {
    pub consume_set: Vec<CellPattern>,
    pub read_refs: Vec<CellPattern>,
    pub create_set: Vec<CreatePattern>,
    pub mutate_set: Vec<MutatePattern>,
    pub write_intents: Vec<WriteIntent>,
    pub blocks: Vec<IrBlock>,
    /// Names bound to cells in the body.
    pub cell_bindings: Vec<String>,
    /// Operations on bounded collections, by name.
    pub bounded_collection_ops: Vec<String>,
    /// Borrowed regions, by name.
    pub borrow_regions: Vec<String>,
    /// Calls into trusted external code, by callee name.
    pub trusted_external_calls: Vec<String>,
}

/// A declared state change of a consumed cell into a created one.
#[derive(Debug, PartialEq, Eq)]
pub struct IrStateTransitionEdge {
    pub input_binding: Option<String>,
    pub output_binding: Option<String>,
    pub ty_name: String,
    pub field_name: String,
    pub from: String,
    pub to: String,
    pub from_index: usize,
    pub to_index: usize,
}

/// The text of an optional name.
pub open spec fn opt_text(o: Option<String>) -> Option<Seq<char>> {
    match o {
        Some(s) => Some(s@),
        None => None,
    }
}

fn clone_opt_string(o: &Option<String>) -> (r: Option<String>)
    ensures
        opt_text(r) == opt_text(*o),
{
    match o {
        Some(s) => Some(s.clone()),
        None => None,
    }
}

impl IrStateTransitionEdge {
    /// The edge with its names as text.
    pub open spec fn text(&self) -> (Option<Seq<char>>, Option<Seq<char>>, Seq<char>, Seq<char>, Seq<char>, Seq<char>, usize, usize) {
        (opt_text(self.input_binding), opt_text(self.output_binding), self.ty_name@, self.field_name@, self.from@, self.to@, self.from_index, self.to_index)
    }
}

impl Clone for IrStateTransitionEdge {
    fn clone(&self) -> (r: Self)
        ensures
            r.text() == self.text(),
    {
        IrStateTransitionEdge {
            input_binding: clone_opt_string(&self.input_binding),
            output_binding: clone_opt_string(&self.output_binding),
            ty_name: self.ty_name.clone(),
            field_name: self.field_name.clone(),
            from: self.from.clone(),
            to: self.to.clone(),
            from_index: self.from_index,
            to_index: self.to_index,
        }
    }
}

#[derive(Debug, Clone, PartialEq, Eq)]
pub struct IrPureFn {
    pub name: String,
    pub params: Vec<IrParam>,
    pub return_type: Option<IrType>,
    pub body: IrBody,
}

#[derive(Debug, Clone, PartialEq, Eq)]
pub struct IrAction {
    pub name: String,
    pub params: Vec<IrParam>,
    pub return_type: Option<IrType>,
    pub state_transition_edges: Vec<IrStateTransitionEdge>,
    pub body: IrBody,
}

#[derive(Debug, Clone, PartialEq, Eq)]
pub struct IrLock {
    pub name: String,
    pub params: Vec<IrParam>,
    pub body: IrBody,
}

#[derive(Debug, Clone, PartialEq, Eq)]
pub struct IrField {
    pub name: String,
    pub ty: IrType,
}

#[derive(Debug, Clone, PartialEq, Eq)]
pub struct IrTypeDef {
    pub name: String,
    pub fields: Vec<IrField>,
}

#[derive(Debug, Clone, PartialEq, Eq)]
pub enum IrItem {
    Action(IrAction),
    PureFn(IrPureFn),
    Lock(IrLock),
    TypeDef(IrTypeDef),
}

#[derive(Debug, Clone)]
pub struct IrModule {
    pub name: String,
    pub items: Vec<IrItem>,
    pub external_type_defs: Vec<IrTypeDef>,
    pub enum_fixed_sizes: HashMap<String, usize>,
}

} // verus!
