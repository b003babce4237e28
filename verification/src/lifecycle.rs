//! Validation of declared state-machine lifecycles: every state machine
//! names at least two states, and every create of a state-machine type sets
//! its state field to a statically known declared state unless it updates a
//! consumed cell of that type.

use vstd::prelude::*;
use crate::ast::{ActionDef, BindingPattern, CreateExpr, Expr, Item, MatchArm, Module, Param, Span, StateMachineDef, Stmt, Transition, Type};
use crate::error::CompileError;
use crate::names::{find_last, NameMap};
use crate::text::{chars_eq, chars_slice, push_decimal_u128, str_chars, string_from_chars, string_push_str};

verus! {

broadcast use vstd::std_specs::vec::group_vec_axioms;

pub const LIFECYCLE_STATE_FIELD_NAME: &'static str = "state";

/// The states of one state machine and the field that carries them.
pub struct LifecycleSpec {
    pub states: Vec<String>,
    pub state_field_name: String,
    pub state_field_span: Option<Span>,
}

impl LifecycleSpec {
    pub open spec fn state_names(&self) -> Seq<Seq<char>> {
        self.states@.map_values(|s: String| s@)
    }
}

/// What an action body lets the checker know statically.
pub struct ActionLifecycleContext {
    /// Lifecycle type of each variable known to hold a state-machine cell.
    pub variable_lifecycle_types: NameMap<String>,
    /// Lifecycle types of which a cell is consumed.
    pub consumed_lifecycle_types: Vec<String>,
    /// Variables bound to integer literals.
    pub integer_aliases: NameMap<u64>,
}

/// The abstract content of a lifecycle context.
pub struct CtxView {
    pub vars: Seq<(Seq<char>, Seq<char>)>,
    pub consumed: Seq<Seq<char>>,
    pub aliases: Seq<(Seq<char>, u64)>,
}

impl ActionLifecycleContext {
    pub open spec fn view(&self) -> CtxView {
        CtxView {
            vars: self.variable_lifecycle_types.pairs().map_values(|p: (Seq<char>, String)| (p.0, p.1@)),
            consumed: self.consumed_lifecycle_types@.map_values(|s: String| s@),
            aliases: self.integer_aliases.pairs(),
        }
    }

    pub fn new() -> (c: Self)
        ensures
            c.view() == (CtxView { vars: Seq::empty(), consumed: Seq::empty(), aliases: Seq::empty() }),
    {
        let c = ActionLifecycleContext {
            variable_lifecycle_types: NameMap::new(),
            consumed_lifecycle_types: Vec::new(),
            integer_aliases: NameMap::new(),
        };
        assert(c.view().vars =~= Seq::empty());
        assert(c.view().consumed =~= Seq::empty());
        c
    }
}

/// The abstract content of a state machine's lifecycle.
pub struct SpecView {
    pub states: Seq<Seq<char>>,
    pub field: Seq<char>,
    pub has_span: bool,
}

impl LifecycleSpec {
    pub open spec fn view(&self) -> SpecView {
        SpecView { states: self.state_names(), field: self.state_field_name@, has_span: self.state_field_span is Some }
    }
}

/// Declared state machines by governed type name; a later one shadows an earlier one.
pub type Specs = Seq<(Seq<char>, SpecView)>;

pub open spec fn specs_view(m: &NameMap<LifecycleSpec>) -> Specs {
    m.pairs().map_values(|p: (Seq<char>, LifecycleSpec)| (p.0, p.1.view()))
}

pub open spec fn has_spec(specs: Specs, ty: Seq<char>) -> bool {
    find_last(specs, ty) is Some
}

// ---------------------------------------------------------------------------
// Specifications
// ---------------------------------------------------------------------------

/// `Some(v)` for an integer literal, possibly under casts.
pub open spec fn spec_integer_literal(e: Expr) -> Option<u64>
    decreases e,
{
    match e {
        Expr::Integer(v) => Some(v),
        Expr::Cast { expr, .. } => spec_integer_literal(*expr),
        _ => None,
    }
}

/// An integer literal, or an identifier bound to one.
pub open spec fn spec_static_integer(e: Expr, ctx: CtxView) -> Option<u64> {
    match e {
        Expr::Identifier(name) => find_last(ctx.aliases, name@),
        _ => spec_integer_literal(e),
    }
}

/// The text after the last `::` in `s`, or `s` when it has none.
pub open spec fn last_segment(s: Seq<char>) -> Seq<char>
    decreases s.len(),
{
    if s.len() < 2 {
        s
    } else if s[s.len() - 2] == ':' && s[s.len() - 1] == ':' {
        Seq::empty()
    } else {
        last_segment(s.drop_last()).push(s.last())
    }
}

/// The position of the first state at or after `i` named `name`.
pub open spec fn position_from(states: Seq<Seq<char>>, name: Seq<char>, i: int) -> Option<nat>
    decreases states.len() - i,
{
    if i < 0 || i >= states.len() {
        None
    } else if states[i] == name {
        Some(i as nat)
    } else {
        position_from(states, name, i + 1)
    }
}

/// The position of the first state named `name`.
pub open spec fn state_position(states: Seq<Seq<char>>, name: Seq<char>) -> Option<nat> {
    position_from(states, name, 0)
}

/// The statically known state index of a state expression.
pub open spec fn spec_static_state(e: Expr, ctx: CtxView, states: Seq<Seq<char>>) -> Option<int> {
    match spec_static_integer(e, ctx) {
        Some(v) => Some(v as int),
        None => match e {
            Expr::Identifier(name) => match state_position(states, last_segment(name@)) {
                Some(i) => Some(i as int),
                None => None,
            },
            _ => None,
        },
    }
}

/// The lifecycle type an expression is known to have.
pub open spec fn spec_expr_type(specs: Specs, ctx: CtxView, e: Expr) -> Option<Seq<char>>
    decreases e,
{
    match e {
        Expr::Identifier(name) => find_last(ctx.vars, name@),
        Expr::Create(c) => if has_spec(specs, c.ty@) { Some(c.ty@) } else { None },
        Expr::Cast { expr, .. } => spec_expr_type(specs, ctx, *expr),
        _ => None,
    }
}

/// Index of the first field at or after `i` named `name`.
pub open spec fn field_index_from(fields: Seq<(String, Expr)>, name: Seq<char>, i: int) -> Option<int>
    decreases fields.len() - i,
{
    if i < 0 || i >= fields.len() {
        None
    } else if fields[i].0@ == name {
        Some(i)
    } else {
        field_index_from(fields, name, i + 1)
    }
}

/// The value given to the first field named `name`.
pub open spec fn field_value(fields: Seq<(String, Expr)>, name: Seq<char>) -> Option<Expr> {
    match field_index_from(fields, name, 0) {
        Some(i) => Some(fields[i].1),
        None => None,
    }
}

pub open spec fn msg_missing_state(ty: Seq<char>) -> Seq<char> {
    "create of state-machine type '"@ + ty + "' must set its state field"@
}

pub open spec fn msg_not_static(ty: Seq<char>) -> Seq<char> {
    "initial create of state-machine type '"@ + ty + "' must use a statically known declared state"@
}

pub open spec fn msg_out_of_range(index: int, ty: Seq<char>, count: int) -> Seq<char> {
    "state-machine state index "@ + crate::text::dec_nat(index as nat) + " is out of range for '"@ + ty
        + "' with "@ + crate::text::dec_nat(count as nat) + " states"@
}

/// The error, if any, that a single create of a state-machine type raises.
pub open spec fn spec_create_error(specs: Specs, ctx: CtxView, c: CreateExpr) -> Option<(Seq<char>, Span)> {
    match find_last(specs, c.ty@) {
        None => None,
        Some(spec) => {
            if !spec.has_span {
                None
            } else {
                match field_value(c.fields@, spec.field) {
                    None => Some((msg_missing_state(c.ty@), c.span)),
                    Some(state_expr) => {
                        let updates_existing = ctx.consumed.contains(c.ty@);
                        match spec_static_state(state_expr, ctx, spec.states) {
                            None => if !updates_existing { Some((msg_not_static(c.ty@), c.span)) } else { None },
                            Some(idx) => if idx >= spec.states.len() {
                                Some((msg_out_of_range(idx, c.ty@, spec.states.len() as int), c.span))
                            } else {
                                None
                            },
                        }
                    },
                }
            }
        },
    }
}

/// The first lifecycle error in an expression, in evaluation order.
pub open spec fn spec_expr_error(specs: Specs, ctx: CtxView, e: Expr) -> Option<(Seq<char>, Span)>
    decreases e,
{
    match e {
        Expr::Create(c) => match spec_create_error(specs, ctx, c) {
            Some(m) => Some(m),
            None => match spec_fields_error(specs, ctx, c.fields@) {
                Some(m) => Some(m),
                None => match c.lock {
                    Some(l) => spec_expr_error(specs, ctx, *l),
                    None => None,
                },
            },
        },
        Expr::Assign { target, value } => first_error(spec_expr_error(specs, ctx, *target), spec_expr_error(specs, ctx, *value)),
        Expr::Binary { left, right } => first_error(spec_expr_error(specs, ctx, *left), spec_expr_error(specs, ctx, *right)),
        Expr::Unary(x) => spec_expr_error(specs, ctx, *x),
        Expr::Call { func, args } => match spec_expr_error(specs, ctx, *func) {
            Some(m) => Some(m),
            None => spec_exprs_error(specs, ctx, args@),
        },
        Expr::FieldAccess { expr, .. } => spec_expr_error(specs, ctx, *expr),
        Expr::Index { expr, index } => first_error(spec_expr_error(specs, ctx, *expr), spec_expr_error(specs, ctx, *index)),
        Expr::Consume(x) => spec_expr_error(specs, ctx, *x),
        Expr::Transfer { expr, to } => first_error(spec_expr_error(specs, ctx, *expr), spec_expr_error(specs, ctx, *to)),
        Expr::Destroy(x) => spec_expr_error(specs, ctx, *x),
        Expr::Claim(x) => spec_expr_error(specs, ctx, *x),
        Expr::Settle(x) => spec_expr_error(specs, ctx, *x),
        Expr::Assert { condition, message } => first_error(spec_expr_error(specs, ctx, *condition), spec_expr_error(specs, ctx, *message)),
        Expr::Require(x) => spec_expr_error(specs, ctx, *x),
        Expr::Block(stmts) => spec_stmts_error(specs, ctx, stmts@),
        Expr::Tuple(items) => spec_exprs_error(specs, ctx, items@),
        Expr::Array(items) => spec_exprs_error(specs, ctx, items@),
        Expr::If { condition, then_branch, else_branch } => first_error(
            first_error(spec_expr_error(specs, ctx, *condition), spec_expr_error(specs, ctx, *then_branch)),
            spec_expr_error(specs, ctx, *else_branch),
        ),
        Expr::Cast { expr, .. } => spec_expr_error(specs, ctx, *expr),
        Expr::Range { start, end } => first_error(spec_expr_error(specs, ctx, *start), spec_expr_error(specs, ctx, *end)),
        Expr::StructInit { fields, .. } => spec_fields_error(specs, ctx, fields@),
        Expr::Match { expr, arms } => match spec_expr_error(specs, ctx, *expr) {
            Some(m) => Some(m),
            None => spec_arms_error(specs, ctx, arms@),
        },
        _ => None,
    }
}

/// The first of two errors.
pub open spec fn first_error(a: Option<(Seq<char>, Span)>, b: Option<(Seq<char>, Span)>) -> Option<(Seq<char>, Span)> {
    if a is Some {
        a
    } else {
        b
    }
}

pub open spec fn spec_exprs_error(specs: Specs, ctx: CtxView, es: Seq<Expr>) -> Option<(Seq<char>, Span)>
    decreases es,
{
    if es.len() == 0 {
        None
    } else {
        match spec_exprs_error(specs, ctx, es.subrange(0, es.len() - 1)) {
            Some(m) => Some(m),
            None => spec_expr_error(specs, ctx, es[es.len() - 1]),
        }
    }
}

pub open spec fn spec_fields_error(specs: Specs, ctx: CtxView, fs: Seq<(String, Expr)>) -> Option<(Seq<char>, Span)>
    decreases fs,
{
    if fs.len() == 0 {
        None
    } else {
        match spec_fields_error(specs, ctx, fs.subrange(0, fs.len() - 1)) {
            Some(m) => Some(m),
            None => spec_expr_error(specs, ctx, fs[fs.len() - 1].1),
        }
    }
}

pub open spec fn spec_arms_error(specs: Specs, ctx: CtxView, arms: Seq<MatchArm>) -> Option<(Seq<char>, Span)>
    decreases arms,
{
    if arms.len() == 0 {
        None
    } else {
        match spec_arms_error(specs, ctx, arms.subrange(0, arms.len() - 1)) {
            Some(m) => Some(m),
            None => spec_expr_error(specs, ctx, arms[arms.len() - 1].value),
        }
    }
}

pub open spec fn spec_stmt_error(specs: Specs, ctx: CtxView, s: Stmt) -> Option<(Seq<char>, Span)>
    decreases s,
{
    match s {
        Stmt::Let { value, .. } => spec_expr_error(specs, ctx, value),
        Stmt::Expr(e) => spec_expr_error(specs, ctx, e),
        Stmt::Return(Some(e)) => spec_expr_error(specs, ctx, e),
        Stmt::Return(None) => None,
        Stmt::If { condition, then_branch, else_branch } => match spec_expr_error(specs, ctx, condition) {
            Some(m) => Some(m),
            None => match spec_stmts_error(specs, ctx, then_branch@) {
                Some(m) => Some(m),
                None => match else_branch {
                    Some(b) => spec_stmts_error(specs, ctx, b@),
                    None => None,
                },
            },
        },
        Stmt::For { iterable, body, .. } => match spec_expr_error(specs, ctx, iterable) {
            Some(m) => Some(m),
            None => spec_stmts_error(specs, ctx, body@),
        },
        Stmt::While { condition, body } => match spec_expr_error(specs, ctx, condition) {
            Some(m) => Some(m),
            None => spec_stmts_error(specs, ctx, body@),
        },
    }
}

pub open spec fn spec_stmts_error(specs: Specs, ctx: CtxView, ss: Seq<Stmt>) -> Option<(Seq<char>, Span)>
    decreases ss,
{
    if ss.len() == 0 {
        None
    } else {
        match spec_stmts_error(specs, ctx, ss.subrange(0, ss.len() - 1)) {
            Some(m) => Some(m),
            None => spec_stmt_error(specs, ctx, ss[ss.len() - 1]),
        }
    }
}


// ---------------------------------------------------------------------------
// Creates that leave out the state field
// ---------------------------------------------------------------------------

/// A create of a declared state-machine type that names no field called
/// like the machine's state field.
pub open spec fn lacks_state_field(specs: Specs, c: CreateExpr) -> bool {
    match find_last(specs, c.ty@) {
        Some(sp) => sp.has_span && forall|i: int| 0 <= i < c.fields@.len() ==> (#[trigger] c.fields@[i]).0@ != sp.field,
        None => false,
    }
}

/// A create of a declared state-machine type that names its state field,
/// every time with an integer literal past the machine's last state.
pub open spec fn state_literal_out_of_range(specs: Specs, c: CreateExpr) -> bool {
    match find_last(specs, c.ty@) {
        Some(sp) => sp.has_span && (exists|i: int| 0 <= i < c.fields@.len() && (#[trigger] c.fields@[i]).0@ == sp.field)
            && forall|i: int| 0 <= i < c.fields@.len() && (#[trigger] c.fields@[i]).0@ == sp.field ==> (c.fields@[i].1 matches Expr::Integer(v)
                && v >= sp.states.len()),
        None => false,
    }
}

proof fn lemma_field_index_found(fields: Seq<(String, Expr)>, name: Seq<char>, i: int, k: int)
    requires
        0 <= i <= k < fields.len(),
        fields[k].0@ == name,
    ensures
        field_index_from(fields, name, i) matches Some(j) && i <= j < fields.len() && fields[j].0@ == name,
    decreases fields.len() - i,
{
    if fields[i].0@ != name {
        lemma_field_index_found(fields, name, i + 1, k);
    }
}

/// Whether a create that leaves out the state field, or gives it only an
/// out-of-range literal, stands somewhere in an expression, at any depth:
/// itself, in a create's field values or lock, or in any subexpression,
/// block or branch.
pub open spec fn expr_has_stateless_create(specs: Specs, e: Expr) -> bool
    decreases e,
{
    match e {
        Expr::Create(c) => lacks_state_field(specs, c) || state_literal_out_of_range(specs, c)
            || fields_have_stateless_create(specs, c.fields@) || match c.lock {
            Some(l) => expr_has_stateless_create(specs, *l),
            None => false,
        },
        Expr::Consume(x) => expr_has_stateless_create(specs, *x),
        Expr::Assign { target, value } => expr_has_stateless_create(specs, *target) || expr_has_stateless_create(specs, *value),
        Expr::Binary { left, right } => expr_has_stateless_create(specs, *left) || expr_has_stateless_create(specs, *right),
        Expr::Unary(x) => expr_has_stateless_create(specs, *x),
        Expr::Call { func, args } => expr_has_stateless_create(specs, *func) || exprs_have_stateless_create(specs, args@),
        Expr::FieldAccess { expr, .. } => expr_has_stateless_create(specs, *expr),
        Expr::Index { expr, index } => expr_has_stateless_create(specs, *expr) || expr_has_stateless_create(specs, *index),
        Expr::Transfer { expr, to } => expr_has_stateless_create(specs, *expr) || expr_has_stateless_create(specs, *to),
        Expr::Destroy(x) => expr_has_stateless_create(specs, *x),
        Expr::Claim(x) => expr_has_stateless_create(specs, *x),
        Expr::Settle(x) => expr_has_stateless_create(specs, *x),
        Expr::Assert { condition, message } => expr_has_stateless_create(specs, *condition)
            || expr_has_stateless_create(specs, *message),
        Expr::Require(x) => expr_has_stateless_create(specs, *x),
        Expr::Block(stmts) => stmts_have_stateless_create(specs, stmts@),
        Expr::Tuple(items) => exprs_have_stateless_create(specs, items@),
        Expr::Array(items) => exprs_have_stateless_create(specs, items@),
        Expr::If { condition, then_branch, else_branch } => expr_has_stateless_create(specs, *condition)
            || expr_has_stateless_create(specs, *then_branch) || expr_has_stateless_create(specs, *else_branch),
        Expr::Cast { expr, .. } => expr_has_stateless_create(specs, *expr),
        Expr::Range { start, end } => expr_has_stateless_create(specs, *start) || expr_has_stateless_create(specs, *end),
        Expr::StructInit { fields, .. } => fields_have_stateless_create(specs, fields@),
        Expr::Match { expr, arms } => expr_has_stateless_create(specs, *expr) || arms_have_stateless_create(specs, arms@),
        _ => false,
    }
}

pub open spec fn exprs_have_stateless_create(specs: Specs, es: Seq<Expr>) -> bool
    decreases es,
{
    if es.len() == 0 {
        false
    } else {
        exprs_have_stateless_create(specs, es.subrange(0, es.len() - 1))
            || expr_has_stateless_create(specs, es[es.len() - 1])
    }
}

pub open spec fn arms_have_stateless_create(specs: Specs, arms: Seq<MatchArm>) -> bool
    decreases arms,
{
    if arms.len() == 0 {
        false
    } else {
        arms_have_stateless_create(specs, arms.subrange(0, arms.len() - 1))
            || expr_has_stateless_create(specs, arms[arms.len() - 1].value)
    }
}

pub open spec fn fields_have_stateless_create(specs: Specs, fs: Seq<(String, Expr)>) -> bool
    decreases fs,
{
    if fs.len() == 0 {
        false
    } else {
        fields_have_stateless_create(specs, fs.subrange(0, fs.len() - 1))
            || expr_has_stateless_create(specs, fs[fs.len() - 1].1)
    }
}

/// Whether such a create stands somewhere in a statement, at any depth of
/// `if` branches (then and else) and loop bodies.
pub open spec fn stmt_has_stateless_create(specs: Specs, s: Stmt) -> bool
    decreases s,
{
    match s {
        Stmt::Let { value, .. } => expr_has_stateless_create(specs, value),
        Stmt::Expr(e) => expr_has_stateless_create(specs, e),
        Stmt::Return(Some(e)) => expr_has_stateless_create(specs, e),
        Stmt::Return(None) => false,
        Stmt::If { condition, then_branch, else_branch } => expr_has_stateless_create(specs, condition)
            || stmts_have_stateless_create(specs, then_branch@) || match else_branch {
                Some(b) => stmts_have_stateless_create(specs, b@),
                None => false,
            },
        Stmt::For { iterable, body, .. } => expr_has_stateless_create(specs, iterable)
            || stmts_have_stateless_create(specs, body@),
        Stmt::While { condition, body } => expr_has_stateless_create(specs, condition)
            || stmts_have_stateless_create(specs, body@),
    }
}

pub open spec fn stmts_have_stateless_create(specs: Specs, ss: Seq<Stmt>) -> bool
    decreases ss,
{
    if ss.len() == 0 {
        false
    } else {
        stmts_have_stateless_create(specs, ss.subrange(0, ss.len() - 1))
            || stmt_has_stateless_create(specs, ss[ss.len() - 1])
    }
}

proof fn lemma_no_field_index(fields: Seq<(String, Expr)>, name: Seq<char>, i: int)
    requires
        0 <= i,
        forall|j: int| 0 <= j < fields.len() ==> (#[trigger] fields[j]).0@ != name,
    ensures
        field_index_from(fields, name, i) is None,
    decreases fields.len() - i,
{
    if i < fields.len() {
        lemma_no_field_index(fields, name, i + 1);
    }
}

/// A create that leaves out the state field, or gives it only an
/// out-of-range literal, is reported wherever it stands in an expression,
/// whatever the context.
pub proof fn lemma_expr_stateless_create_rejected(specs: Specs, ctx: CtxView, e: Expr)
    requires
        expr_has_stateless_create(specs, e),
    ensures
        spec_expr_error(specs, ctx, e) is Some,
    decreases e,
{
    match e {
        Expr::Create(c) => {
            if lacks_state_field(specs, c) {
                let sp = find_last(specs, c.ty@)->0;
                lemma_no_field_index(c.fields@, sp.field, 0);
            } else if state_literal_out_of_range(specs, c) {
                let sp = find_last(specs, c.ty@)->0;
                let k = choose|i: int| 0 <= i < c.fields@.len() && (#[trigger] c.fields@[i]).0@ == sp.field;
                lemma_field_index_found(c.fields@, sp.field, 0, k);
            } else if fields_have_stateless_create(specs, c.fields@) {
                lemma_fields_stateless_create_rejected(specs, ctx, c.fields@);
            } else {
                match c.lock {
                    Some(l) => lemma_expr_stateless_create_rejected(specs, ctx, *l),
                    None => {},
                }
            }
        },
        Expr::Consume(x) => lemma_expr_stateless_create_rejected(specs, ctx, *x),
        Expr::Assign { target, value } => {
            if expr_has_stateless_create(specs, *target) {
                lemma_expr_stateless_create_rejected(specs, ctx, *target);
            } else {
                lemma_expr_stateless_create_rejected(specs, ctx, *value);
            }
        },
        Expr::Binary { left, right } => {
            if expr_has_stateless_create(specs, *left) {
                lemma_expr_stateless_create_rejected(specs, ctx, *left);
            } else {
                lemma_expr_stateless_create_rejected(specs, ctx, *right);
            }
        },
        Expr::Unary(x) => lemma_expr_stateless_create_rejected(specs, ctx, *x),
        Expr::Call { func, args } => {
            if expr_has_stateless_create(specs, *func) {
                lemma_expr_stateless_create_rejected(specs, ctx, *func);
            } else {
                lemma_exprs_stateless_create_rejected(specs, ctx, args@);
            }
        },
        Expr::FieldAccess { expr, .. } => lemma_expr_stateless_create_rejected(specs, ctx, *expr),
        Expr::Index { expr, index } => {
            if expr_has_stateless_create(specs, *expr) {
                lemma_expr_stateless_create_rejected(specs, ctx, *expr);
            } else {
                lemma_expr_stateless_create_rejected(specs, ctx, *index);
            }
        },
        Expr::Transfer { expr, to } => {
            if expr_has_stateless_create(specs, *expr) {
                lemma_expr_stateless_create_rejected(specs, ctx, *expr);
            } else {
                lemma_expr_stateless_create_rejected(specs, ctx, *to);
            }
        },
        Expr::Destroy(x) => lemma_expr_stateless_create_rejected(specs, ctx, *x),
        Expr::Claim(x) => lemma_expr_stateless_create_rejected(specs, ctx, *x),
        Expr::Settle(x) => lemma_expr_stateless_create_rejected(specs, ctx, *x),
        Expr::Assert { condition, message } => {
            if expr_has_stateless_create(specs, *condition) {
                lemma_expr_stateless_create_rejected(specs, ctx, *condition);
            } else {
                lemma_expr_stateless_create_rejected(specs, ctx, *message);
            }
        },
        Expr::Require(x) => lemma_expr_stateless_create_rejected(specs, ctx, *x),
        Expr::Block(stmts) => lemma_stmts_stateless_create_rejected(specs, ctx, stmts@),
        Expr::Tuple(items) => lemma_exprs_stateless_create_rejected(specs, ctx, items@),
        Expr::Array(items) => lemma_exprs_stateless_create_rejected(specs, ctx, items@),
        Expr::If { condition, then_branch, else_branch } => {
            if expr_has_stateless_create(specs, *condition) {
                lemma_expr_stateless_create_rejected(specs, ctx, *condition);
            } else if expr_has_stateless_create(specs, *then_branch) {
                lemma_expr_stateless_create_rejected(specs, ctx, *then_branch);
            } else {
                lemma_expr_stateless_create_rejected(specs, ctx, *else_branch);
            }
        },
        Expr::Cast { expr, .. } => lemma_expr_stateless_create_rejected(specs, ctx, *expr),
        Expr::Range { start, end } => {
            if expr_has_stateless_create(specs, *start) {
                lemma_expr_stateless_create_rejected(specs, ctx, *start);
            } else {
                lemma_expr_stateless_create_rejected(specs, ctx, *end);
            }
        },
        Expr::StructInit { fields, .. } => lemma_fields_stateless_create_rejected(specs, ctx, fields@),
        Expr::Match { expr, arms } => {
            if expr_has_stateless_create(specs, *expr) {
                lemma_expr_stateless_create_rejected(specs, ctx, *expr);
            } else {
                lemma_arms_stateless_create_rejected(specs, ctx, arms@);
            }
        },
        _ => {},
    }
}

pub proof fn lemma_exprs_stateless_create_rejected(specs: Specs, ctx: CtxView, es: Seq<Expr>)
    requires
        exprs_have_stateless_create(specs, es),
    ensures
        spec_exprs_error(specs, ctx, es) is Some,
    decreases es,
{
    if exprs_have_stateless_create(specs, es.subrange(0, es.len() - 1)) {
        lemma_exprs_stateless_create_rejected(specs, ctx, es.subrange(0, es.len() - 1));
    } else {
        lemma_expr_stateless_create_rejected(specs, ctx, es[es.len() - 1]);
    }
}

pub proof fn lemma_arms_stateless_create_rejected(specs: Specs, ctx: CtxView, arms: Seq<MatchArm>)
    requires
        arms_have_stateless_create(specs, arms),
    ensures
        spec_arms_error(specs, ctx, arms) is Some,
    decreases arms,
{
    if arms_have_stateless_create(specs, arms.subrange(0, arms.len() - 1)) {
        lemma_arms_stateless_create_rejected(specs, ctx, arms.subrange(0, arms.len() - 1));
    } else {
        lemma_expr_stateless_create_rejected(specs, ctx, arms[arms.len() - 1].value);
    }
}

pub proof fn lemma_fields_stateless_create_rejected(specs: Specs, ctx: CtxView, fs: Seq<(String, Expr)>)
    requires
        fields_have_stateless_create(specs, fs),
    ensures
        spec_fields_error(specs, ctx, fs) is Some,
    decreases fs,
{
    if fields_have_stateless_create(specs, fs.subrange(0, fs.len() - 1)) {
        lemma_fields_stateless_create_rejected(specs, ctx, fs.subrange(0, fs.len() - 1));
    } else {
        lemma_expr_stateless_create_rejected(specs, ctx, fs[fs.len() - 1].1);
    }
}

/// A create that leaves out the state field is reported wherever it stands
/// in a statement, the else branch of an `if` included.
pub proof fn lemma_stmt_stateless_create_rejected(specs: Specs, ctx: CtxView, s: Stmt)
    requires
        stmt_has_stateless_create(specs, s),
    ensures
        spec_stmt_error(specs, ctx, s) is Some,
    decreases s,
{
    match s {
        Stmt::Let { value, .. } => lemma_expr_stateless_create_rejected(specs, ctx, value),
        Stmt::Expr(e) => lemma_expr_stateless_create_rejected(specs, ctx, e),
        Stmt::Return(Some(e)) => lemma_expr_stateless_create_rejected(specs, ctx, e),
        Stmt::Return(None) => {},
        Stmt::If { condition, then_branch, else_branch } => {
            if expr_has_stateless_create(specs, condition) {
                lemma_expr_stateless_create_rejected(specs, ctx, condition);
            } else if stmts_have_stateless_create(specs, then_branch@) {
                lemma_stmts_stateless_create_rejected(specs, ctx, then_branch@);
            } else {
                match else_branch {
                    Some(b) => lemma_stmts_stateless_create_rejected(specs, ctx, b@),
                    None => {},
                }
            }
        },
        Stmt::For { iterable, body, .. } => {
            if expr_has_stateless_create(specs, iterable) {
                lemma_expr_stateless_create_rejected(specs, ctx, iterable);
            } else {
                lemma_stmts_stateless_create_rejected(specs, ctx, body@);
            }
        },
        Stmt::While { condition, body } => {
            if expr_has_stateless_create(specs, condition) {
                lemma_expr_stateless_create_rejected(specs, ctx, condition);
            } else {
                lemma_stmts_stateless_create_rejected(specs, ctx, body@);
            }
        },
    }
}

pub proof fn lemma_stmts_stateless_create_rejected(specs: Specs, ctx: CtxView, ss: Seq<Stmt>)
    requires
        stmts_have_stateless_create(specs, ss),
    ensures
        spec_stmts_error(specs, ctx, ss) is Some,
    decreases ss,
{
    if stmts_have_stateless_create(specs, ss.subrange(0, ss.len() - 1)) {
        lemma_stmts_stateless_create_rejected(specs, ctx, ss.subrange(0, ss.len() - 1));
    } else {
        lemma_stmt_stateless_create_rejected(specs, ctx, ss[ss.len() - 1]);
    }
}

/// The body of an action, function or lock, if the item has one.
pub open spec fn item_body(item: Item) -> Option<Seq<Stmt>> {
    match item {
        Item::Action(a) => Some(a.body@),
        Item::Function(f) => Some(f.body@),
        Item::Lock(l) => Some(l.body@),
        _ => None,
    }
}

proof fn lemma_items_error_from(specs: Specs, items: Seq<Item>, i: int)
    requires
        0 <= i < items.len(),
        spec_item_error(specs, items[i]) is Some,
    ensures
        spec_items_error(specs, items) is Some,
    decreases items.len(),
{
    if i < items.len() - 1 {
        assert(items.drop_last()[i] == items[i]);
        lemma_items_error_from(specs, items.drop_last(), i);
    }
}

/// Checking a module fails when the body of any of its actions, functions
/// or locks holds, anywhere (an else branch included), a create of a
/// state-machine type that does not set the machine's state field, or sets
/// it only to an integer literal past the machine's last state.
pub proof fn lemma_check_rejects_stateless_create(module: Module, i: int)
    requires
        0 <= i < module.items@.len(),
        item_body(module.items@[i]) matches Some(body) && (spec_build(module.items@) matches Ok(specs)
            && stmts_have_stateless_create(specs, body)),
    ensures
        spec_check(module) is Some,
{
    let specs = spec_build(module.items@)->Ok_0;
    let item = module.items@[i];
    match item {
        Item::Action(a) => lemma_stmts_stateless_create_rejected(specs, spec_action_context(specs, a), a.body@),
        Item::Function(f) => lemma_stmts_stateless_create_rejected(specs, empty_ctx(), f.body@),
        Item::Lock(l) => lemma_stmts_stateless_create_rejected(specs, empty_ctx(), l.body@),
        _ => {},
    }
    lemma_items_error_from(specs, module.items@, i);
}

// ---------------------------------------------------------------------------
// Context collection
// ---------------------------------------------------------------------------

/// The context after recording that the variable `name` holds lifecycle type `ty`.
pub open spec fn with_var(ctx: CtxView, name: Seq<char>, ty: Seq<char>) -> CtxView {
    CtxView { vars: ctx.vars.push((name, ty)), consumed: ctx.consumed, aliases: ctx.aliases }
}

/// What walking an expression teaches the context: consumed lifecycle types.
pub open spec fn spec_collect_expr(specs: Specs, ctx: CtxView, e: Expr) -> CtxView
    decreases e,
{
    match e {
        Expr::Consume(x) => {
            let ctx1 = match *x {
                Expr::Identifier(name) => match find_last(ctx.vars, name@) {
                    Some(ty) => CtxView { vars: ctx.vars, consumed: ctx.consumed.push(ty), aliases: ctx.aliases },
                    None => ctx,
                },
                _ => ctx,
            };
            spec_collect_expr(specs, ctx1, *x)
        },
        Expr::Create(c) => {
            let ctx1 = spec_collect_fields(specs, ctx, c.fields@);
            match c.lock {
                Some(l) => spec_collect_expr(specs, ctx1, *l),
                None => ctx1,
            }
        },
        Expr::Assign { target, value } => spec_collect_expr(specs, spec_collect_expr(specs, ctx, *target), *value),
        Expr::Binary { left, right } => spec_collect_expr(specs, spec_collect_expr(specs, ctx, *left), *right),
        Expr::Unary(x) => spec_collect_expr(specs, ctx, *x),
        Expr::Call { func, args } => spec_collect_exprs(specs, spec_collect_expr(specs, ctx, *func), args@),
        Expr::FieldAccess { expr, .. } => spec_collect_expr(specs, ctx, *expr),
        Expr::Index { expr, index } => spec_collect_expr(specs, spec_collect_expr(specs, ctx, *expr), *index),
        Expr::Transfer { expr, to } => spec_collect_expr(specs, spec_collect_expr(specs, ctx, *expr), *to),
        Expr::Destroy(x) => spec_collect_expr(specs, ctx, *x),
        Expr::Claim(x) => spec_collect_expr(specs, ctx, *x),
        Expr::Settle(x) => spec_collect_expr(specs, ctx, *x),
        Expr::Assert { condition, message } => spec_collect_expr(specs, spec_collect_expr(specs, ctx, *condition), *message),
        Expr::Require(x) => spec_collect_expr(specs, ctx, *x),
        Expr::Block(stmts) => spec_collect_stmts(specs, ctx, stmts@),
        Expr::Tuple(items) => spec_collect_exprs(specs, ctx, items@),
        Expr::Array(items) => spec_collect_exprs(specs, ctx, items@),
        Expr::If { condition, then_branch, else_branch } => spec_collect_expr(
            specs,
            spec_collect_expr(specs, spec_collect_expr(specs, ctx, *condition), *then_branch),
            *else_branch,
        ),
        Expr::Cast { expr, .. } => spec_collect_expr(specs, ctx, *expr),
        Expr::Range { start, end } => spec_collect_expr(specs, spec_collect_expr(specs, ctx, *start), *end),
        Expr::StructInit { fields, .. } => spec_collect_fields(specs, ctx, fields@),
        Expr::Match { expr, arms } => spec_collect_arms(specs, spec_collect_expr(specs, ctx, *expr), arms@),
        _ => ctx,
    }
}

pub open spec fn spec_collect_exprs(specs: Specs, ctx: CtxView, es: Seq<Expr>) -> CtxView
    decreases es,
{
    if es.len() == 0 {
        ctx
    } else {
        spec_collect_expr(specs, spec_collect_exprs(specs, ctx, es.subrange(0, es.len() - 1)), es[es.len() - 1])
    }
}

pub open spec fn spec_collect_fields(specs: Specs, ctx: CtxView, fs: Seq<(String, Expr)>) -> CtxView
    decreases fs,
{
    if fs.len() == 0 {
        ctx
    } else {
        spec_collect_expr(specs, spec_collect_fields(specs, ctx, fs.subrange(0, fs.len() - 1)), fs[fs.len() - 1].1)
    }
}

pub open spec fn spec_collect_arms(specs: Specs, ctx: CtxView, arms: Seq<MatchArm>) -> CtxView
    decreases arms,
{
    if arms.len() == 0 {
        ctx
    } else {
        spec_collect_expr(specs, spec_collect_arms(specs, ctx, arms.subrange(0, arms.len() - 1)), arms[arms.len() - 1].value)
    }
}

/// What a `let` binding teaches the context before its value is walked.
pub open spec fn spec_let_context(specs: Specs, ctx: CtxView, name: Seq<char>, ty: Option<Type>, value: Expr) -> CtxView {
    let ctx1 = match spec_integer_literal(value) {
        Some(v) => CtxView { vars: ctx.vars, consumed: ctx.consumed, aliases: ctx.aliases.push((name, v)) },
        None => ctx,
    };
    match spec_expr_type(specs, ctx1, value) {
        Some(t) => with_var(ctx1, name, t),
        None => match ty {
            Some(Type::Named(t)) => if has_spec(specs, t@) { with_var(ctx1, name, t@) } else { ctx1 },
            _ => ctx1,
        },
    }
}

pub open spec fn spec_collect_stmt(specs: Specs, ctx: CtxView, s: Stmt) -> CtxView
    decreases s,
{
    match s {
        Stmt::Let { pattern, ty, value } => {
            let ctx1 = match pattern {
                BindingPattern::Name(name) => spec_let_context(specs, ctx, name@, ty, value),
                _ => ctx,
            };
            spec_collect_expr(specs, ctx1, value)
        },
        Stmt::Expr(e) => spec_collect_expr(specs, ctx, e),
        Stmt::Return(Some(e)) => spec_collect_expr(specs, ctx, e),
        Stmt::Return(None) => ctx,
        Stmt::If { condition, then_branch, else_branch } => {
            let ctx1 = spec_collect_stmts(specs, spec_collect_expr(specs, ctx, condition), then_branch@);
            match else_branch {
                Some(b) => spec_collect_stmts(specs, ctx1, b@),
                None => ctx1,
            }
        },
        Stmt::For { iterable, body, .. } => spec_collect_stmts(specs, spec_collect_expr(specs, ctx, iterable), body@),
        Stmt::While { condition, body } => spec_collect_stmts(specs, spec_collect_expr(specs, ctx, condition), body@),
    }
}

pub open spec fn spec_collect_stmts(specs: Specs, ctx: CtxView, ss: Seq<Stmt>) -> CtxView
    decreases ss,
{
    if ss.len() == 0 {
        ctx
    } else {
        spec_collect_stmt(specs, spec_collect_stmts(specs, ctx, ss.subrange(0, ss.len() - 1)), ss[ss.len() - 1])
    }
}


// ---------------------------------------------------------------------------
// The whole module
// ---------------------------------------------------------------------------

/// `states` with `st` appended unless it is already there.
pub open spec fn add_state(states: Seq<Seq<char>>, st: Seq<char>) -> Seq<Seq<char>> {
    if states.contains(st) {
        states
    } else {
        states.push(st)
    }
}

/// The distinct states that the transitions mention, by last path segment,
/// in order of first mention (`from` before `to`).
pub open spec fn machine_states(ts: Seq<Transition>) -> Seq<Seq<char>>
    decreases ts.len(),
{
    if ts.len() == 0 {
        Seq::empty()
    } else {
        let t = ts.last();
        add_state(add_state(machine_states(ts.drop_last()), last_segment(t.from@)), last_segment(t.to@))
    }
}

pub open spec fn msg_too_few_states() -> Seq<char> {
    "state machine must mention at least two states"@
}

/// The declared lifecycles of the first items, or the error of the first
/// state machine that mentions fewer than two states.
pub open spec fn spec_build(items: Seq<Item>) -> Result<Specs, (Seq<char>, Span)>
    decreases items.len(),
{
    if items.len() == 0 {
        Ok(Seq::empty())
    } else {
        match spec_build(items.drop_last()) {
            Err(m) => Err(m),
            Ok(sp) => match items.last() {
                Item::StateMachine(m) => {
                    let states = machine_states(m.transitions@);
                    if states.len() < 2 {
                        Err((msg_too_few_states(), m.span))
                    } else {
                        Ok(sp.push((m.target.base@, SpecView { states, field: m.target.field@, has_span: true })))
                    }
                },
                _ => Ok(sp),
            },
        }
    }
}

pub open spec fn empty_ctx() -> CtxView {
    CtxView { vars: Seq::empty(), consumed: Seq::empty(), aliases: Seq::empty() }
}

/// The context that an action's parameters give: each one of a lifecycle type.
pub open spec fn params_context(specs: Specs, params: Seq<Param>) -> CtxView
    decreases params.len(),
{
    if params.len() == 0 {
        empty_ctx()
    } else {
        let ctx = params_context(specs, params.drop_last());
        let p = params.last();
        match p.ty {
            Type::Named(t) => if has_spec(specs, t@) { with_var(ctx, p.name@, t@) } else { ctx },
            _ => ctx,
        }
    }
}

/// Everything the checker learns of an action: its parameters, then its whole body.
pub open spec fn spec_action_context(specs: Specs, a: ActionDef) -> CtxView {
    spec_collect_stmts(specs, params_context(specs, a.params@), a.body@)
}

pub open spec fn spec_item_error(specs: Specs, item: Item) -> Option<(Seq<char>, Span)> {
    match item {
        Item::Action(a) => spec_stmts_error(specs, spec_action_context(specs, a), a.body@),
        Item::Function(f) => spec_stmts_error(specs, empty_ctx(), f.body@),
        Item::Lock(l) => spec_stmts_error(specs, empty_ctx(), l.body@),
        _ => None,
    }
}

pub open spec fn spec_items_error(specs: Specs, items: Seq<Item>) -> Option<(Seq<char>, Span)>
    decreases items.len(),
{
    if items.len() == 0 {
        None
    } else {
        match spec_items_error(specs, items.drop_last()) {
            Some(m) => Some(m),
            None => spec_item_error(specs, items.last()),
        }
    }
}

/// The error that checking a module reports, if any.
pub open spec fn spec_check(module: Module) -> Option<(Seq<char>, Span)> {
    match spec_build(module.items@) {
        Err(m) => Some(m),
        Ok(specs) => spec_items_error(specs, module.items@),
    }
}

// ---------------------------------------------------------------------------
// Executable checker
// ---------------------------------------------------------------------------

fn integer_literal(e: &Expr) -> (r: Option<u64>)
    ensures
        r == spec_integer_literal(*e),
    decreases e,
{
    match e {
        Expr::Integer(v) => Some(*v),
        Expr::Cast { expr, .. } => integer_literal(expr),
        _ => None,
    }
}

fn static_integer_value(e: &Expr, ctx: &ActionLifecycleContext) -> (r: Option<u64>)
    ensures
        r == spec_static_integer(*e, ctx.view()),
{
    match e {
        Expr::Identifier(name) => ctx.integer_aliases.get(name.as_str()),
        _ => integer_literal(e),
    }
}

/// `last_segment` of the first `n` characters of `s`.
fn last_segment_chars(s: &[char], n: usize) -> (r: Vec<char>)
    requires
        n <= s@.len(),
    ensures
        r@ == last_segment(s@.subrange(0, n as int)),
    decreases n,
{
    let ghost p = s@.subrange(0, n as int);
    if n < 2 {
        return chars_slice(s, 0, n);
    }
    if s[n - 2] == ':' && s[n - 1] == ':' {
        return Vec::new();
    }
    let mut r = last_segment_chars(s, n - 1);
    assert(p.drop_last() =~= s@.subrange(0, n - 1));
    r.push(s[n - 1]);
    r
}

fn state_position_exec(states: &Vec<String>, name: &[char]) -> (r: Option<usize>)
    ensures
        r matches Some(i) ==> state_position(states@.map_values(|s: String| s@), name@) == Some(i as nat),
        r is None ==> state_position(states@.map_values(|s: String| s@), name@) is None,
{
    let ghost v = states@.map_values(|s: String| s@);
    let mut i: usize = 0;
    while i < states.len()
        invariant
            i <= states@.len(),
            v == states@.map_values(|s: String| s@),
            position_from(v, name@, 0) == position_from(v, name@, i as int),
        decreases states@.len() - i,
    {
        let c = str_chars(states[i].as_str());
        if chars_eq(c.as_slice(), name) {
            return Some(i);
        }
        i = i + 1;
    }
    None
}

fn static_lifecycle_state_value(e: &Expr, ctx: &ActionLifecycleContext, states: &Vec<String>) -> (r: Option<u64>)
    ensures
        r matches Some(v) ==> spec_static_state(*e, ctx.view(), states@.map_values(|s: String| s@)) == Some(v as int),
        r is None ==> spec_static_state(*e, ctx.view(), states@.map_values(|s: String| s@)) is None,
{
    if let Some(v) = static_integer_value(e, ctx) {
        return Some(v);
    }
    match e {
        Expr::Identifier(name) => {
            let chars = str_chars(name.as_str());
            let seg = last_segment_chars(chars.as_slice(), chars.len());
            assert(chars@.subrange(0, chars@.len() as int) =~= chars@);
            match state_position_exec(states, seg.as_slice()) {
                Some(i) => Some(i as u64),
                None => None,
            }
        },
        _ => None,
    }
}

fn lifecycle_expr_type(specs: &NameMap<LifecycleSpec>, ctx: &ActionLifecycleContext, e: &Expr) -> (r: Option<String>)
    ensures
        r matches Some(t) ==> spec_expr_type(specs_view(specs), ctx.view(), *e) == Some(t@),
        r is None ==> spec_expr_type(specs_view(specs), ctx.view(), *e) is None,
    decreases e,
{
    proof {
        lemma_specs_lookup(specs);
        lemma_vars_lookup(ctx);
    }
    match e {
        Expr::Identifier(name) => match ctx.variable_lifecycle_types.position(name.as_str()) {
            Some(i) => Some(ctx.variable_lifecycle_types.entries[i].1.clone()),
            None => None,
        },
        Expr::Create(c) => {
            if specs.contains_key(c.ty.as_str()) {
                Some(c.ty.clone())
            } else {
                None
            }
        },
        Expr::Cast { expr, .. } => lifecycle_expr_type(specs, ctx, expr),
        _ => None,
    }
}

impl ActionLifecycleContext {
    fn record_consumed(&mut self, ty: String)
        ensures
            final(self).view() == (CtxView {
                vars: old(self).view().vars,
                consumed: old(self).view().consumed.push(ty@),
                aliases: old(self).view().aliases,
            }),
    {
        self.consumed_lifecycle_types.push(ty);
        assert(self.view().consumed =~= old(self).view().consumed.push(ty@));
    }

    fn record_var(&mut self, name: String, ty: String)
        ensures
            final(self).view() == with_var(old(self).view(), name@, ty@),
    {
        self.variable_lifecycle_types.insert(name, ty);
        assert(self.view().vars =~= old(self).view().vars.push((name@, ty@)));
    }

    fn record_alias(&mut self, name: String, value: u64)
        ensures
            final(self).view() == (CtxView {
                vars: old(self).view().vars,
                consumed: old(self).view().consumed,
                aliases: old(self).view().aliases.push((name@, value)),
            }),
    {
        self.integer_aliases.insert(name, value);
    }
}

fn collect_lifecycle_expr_context(specs: &NameMap<LifecycleSpec>, ctx: &mut ActionLifecycleContext, e: &Expr)
    ensures
        final(ctx).view() == spec_collect_expr(specs_view(specs), old(ctx).view(), *e),
    decreases e,
{
    proof {
        lemma_vars_lookup(&*ctx);
    }
    match e {
        Expr::Consume(x) => {
            if let Expr::Identifier(name) = &**x {
                if let Some(i) = ctx.variable_lifecycle_types.position(name.as_str()) {
                    let ty = ctx.variable_lifecycle_types.entries[i].1.clone();
                    ctx.record_consumed(ty);
                }
            }
            collect_lifecycle_expr_context(specs, ctx, x);
        },
        Expr::Create(c) => {
            collect_fields_context(specs, ctx, &c.fields);
            if let Some(l) = &c.lock {
                collect_lifecycle_expr_context(specs, ctx, l);
            }
        },
        Expr::Assign { target, value } => {
            collect_lifecycle_expr_context(specs, ctx, target);
            collect_lifecycle_expr_context(specs, ctx, value);
        },
        Expr::Binary { left, right } => {
            collect_lifecycle_expr_context(specs, ctx, left);
            collect_lifecycle_expr_context(specs, ctx, right);
        },
        Expr::Unary(x) => collect_lifecycle_expr_context(specs, ctx, x),
        Expr::Call { func, args } => {
            collect_lifecycle_expr_context(specs, ctx, func);
            collect_exprs_context(specs, ctx, args);
        },
        Expr::FieldAccess { expr, .. } => collect_lifecycle_expr_context(specs, ctx, expr),
        Expr::Index { expr, index } => {
            collect_lifecycle_expr_context(specs, ctx, expr);
            collect_lifecycle_expr_context(specs, ctx, index);
        },
        Expr::Transfer { expr, to } => {
            collect_lifecycle_expr_context(specs, ctx, expr);
            collect_lifecycle_expr_context(specs, ctx, to);
        },
        Expr::Destroy(x) => collect_lifecycle_expr_context(specs, ctx, x),
        Expr::Claim(x) => collect_lifecycle_expr_context(specs, ctx, x),
        Expr::Settle(x) => collect_lifecycle_expr_context(specs, ctx, x),
        Expr::Assert { condition, message } => {
            collect_lifecycle_expr_context(specs, ctx, condition);
            collect_lifecycle_expr_context(specs, ctx, message);
        },
        Expr::Require(x) => collect_lifecycle_expr_context(specs, ctx, x),
        Expr::Block(stmts) => collect_lifecycle_stmt_context(specs, ctx, stmts),
        Expr::Tuple(items) => collect_exprs_context(specs, ctx, items),
        Expr::Array(items) => collect_exprs_context(specs, ctx, items),
        Expr::If { condition, then_branch, else_branch } => {
            collect_lifecycle_expr_context(specs, ctx, condition);
            collect_lifecycle_expr_context(specs, ctx, then_branch);
            collect_lifecycle_expr_context(specs, ctx, else_branch);
        },
        Expr::Cast { expr, .. } => collect_lifecycle_expr_context(specs, ctx, expr),
        Expr::Range { start, end } => {
            collect_lifecycle_expr_context(specs, ctx, start);
            collect_lifecycle_expr_context(specs, ctx, end);
        },
        Expr::StructInit { fields, .. } => collect_fields_context(specs, ctx, fields),
        Expr::Match { expr, arms } => {
            collect_lifecycle_expr_context(specs, ctx, expr);
            collect_arms_context(specs, ctx, arms);
        },
        _ => {},
    }
}

fn collect_exprs_context(specs: &NameMap<LifecycleSpec>, ctx: &mut ActionLifecycleContext, es: &Vec<Expr>)
    ensures
        final(ctx).view() == spec_collect_exprs(specs_view(specs), old(ctx).view(), es@),
    decreases es,
{
    let ghost start = ctx.view();
    let mut i: usize = 0;
    while i < es.len()
        invariant
            i <= es@.len(),
            start == old(ctx).view(),
            ctx.view() == spec_collect_exprs(specs_view(specs), start, es@.subrange(0, i as int)),
        decreases es@.len() - i,
    {
        assert(es@.subrange(0, i + 1).subrange(0, i as int) =~= es@.subrange(0, i as int));
        collect_lifecycle_expr_context(specs, ctx, &es[i]);
        i = i + 1;
    }
    assert(es@.subrange(0, es@.len() as int) =~= es@);
}

fn collect_fields_context(specs: &NameMap<LifecycleSpec>, ctx: &mut ActionLifecycleContext, fs: &Vec<(String, Expr)>)
    ensures
        final(ctx).view() == spec_collect_fields(specs_view(specs), old(ctx).view(), fs@),
    decreases fs,
{
    let ghost start = ctx.view();
    let mut i: usize = 0;
    while i < fs.len()
        invariant
            i <= fs@.len(),
            start == old(ctx).view(),
            ctx.view() == spec_collect_fields(specs_view(specs), start, fs@.subrange(0, i as int)),
        decreases fs@.len() - i,
    {
        assert(fs@.subrange(0, i + 1).subrange(0, i as int) =~= fs@.subrange(0, i as int));
        proof {
            assert(decreases_to!(fs => fs[i as int]));
        }
        collect_lifecycle_expr_context(specs, ctx, &fs[i].1);
        i = i + 1;
    }
    assert(fs@.subrange(0, fs@.len() as int) =~= fs@);
}

fn collect_arms_context(specs: &NameMap<LifecycleSpec>, ctx: &mut ActionLifecycleContext, arms: &Vec<MatchArm>)
    ensures
        final(ctx).view() == spec_collect_arms(specs_view(specs), old(ctx).view(), arms@),
    decreases arms,
{
    let ghost start = ctx.view();
    let mut i: usize = 0;
    while i < arms.len()
        invariant
            i <= arms@.len(),
            start == old(ctx).view(),
            ctx.view() == spec_collect_arms(specs_view(specs), start, arms@.subrange(0, i as int)),
        decreases arms@.len() - i,
    {
        assert(arms@.subrange(0, i + 1).subrange(0, i as int) =~= arms@.subrange(0, i as int));
        proof {
            assert(decreases_to!(arms => arms[i as int]));
        }
        collect_lifecycle_expr_context(specs, ctx, &arms[i].value);
        i = i + 1;
    }
    assert(arms@.subrange(0, arms@.len() as int) =~= arms@);
}

fn collect_let_context(
    specs: &NameMap<LifecycleSpec>,
    ctx: &mut ActionLifecycleContext,
    name: &String,
    ty: &Option<Type>,
    value: &Expr,
)
    ensures
        final(ctx).view() == spec_let_context(specs_view(specs), old(ctx).view(), name@, *ty, *value),
{
    if let Some(v) = integer_literal(value) {
        ctx.record_alias(name.clone(), v);
    }
    proof {
        lemma_specs_lookup(specs);
    }
    if let Some(t) = lifecycle_expr_type(specs, ctx, value) {
        ctx.record_var(name.clone(), t);
    } else if let Some(Type::Named(t)) = ty {
        if specs.contains_key(t.as_str()) {
            ctx.record_var(name.clone(), t.clone());
        }
    }
}

fn collect_lifecycle_stmt(specs: &NameMap<LifecycleSpec>, ctx: &mut ActionLifecycleContext, s: &Stmt)
    ensures
        final(ctx).view() == spec_collect_stmt(specs_view(specs), old(ctx).view(), *s),
    decreases s,
{
    match s {
        Stmt::Let { pattern, ty, value } => {
            if let BindingPattern::Name(name) = pattern {
                collect_let_context(specs, ctx, name, ty, value);
            }
            collect_lifecycle_expr_context(specs, ctx, value);
        },
        Stmt::Expr(e) => collect_lifecycle_expr_context(specs, ctx, e),
        Stmt::Return(Some(e)) => collect_lifecycle_expr_context(specs, ctx, e),
        Stmt::Return(None) => {},
        Stmt::If { condition, then_branch, else_branch } => {
            collect_lifecycle_expr_context(specs, ctx, condition);
            collect_lifecycle_stmt_context(specs, ctx, then_branch);
            if let Some(b) = else_branch {
                collect_lifecycle_stmt_context(specs, ctx, b);
            }
        },
        Stmt::For { iterable, body, .. } => {
            collect_lifecycle_expr_context(specs, ctx, iterable);
            collect_lifecycle_stmt_context(specs, ctx, body);
        },
        Stmt::While { condition, body } => {
            collect_lifecycle_expr_context(specs, ctx, condition);
            collect_lifecycle_stmt_context(specs, ctx, body);
        },
    }
}

fn collect_lifecycle_stmt_context(specs: &NameMap<LifecycleSpec>, ctx: &mut ActionLifecycleContext, stmts: &Vec<Stmt>)
    ensures
        final(ctx).view() == spec_collect_stmts(specs_view(specs), old(ctx).view(), stmts@),
    decreases stmts,
{
    let ghost start = ctx.view();
    let mut i: usize = 0;
    while i < stmts.len()
        invariant
            i <= stmts@.len(),
            start == old(ctx).view(),
            ctx.view() == spec_collect_stmts(specs_view(specs), start, stmts@.subrange(0, i as int)),
        decreases stmts@.len() - i,
    {
        assert(stmts@.subrange(0, i + 1).subrange(0, i as int) =~= stmts@.subrange(0, i as int));
        collect_lifecycle_stmt(specs, ctx, &stmts[i]);
        i = i + 1;
    }
    assert(stmts@.subrange(0, stmts@.len() as int) =~= stmts@);
}


// ---------------------------------------------------------------------------
// Validation
// ---------------------------------------------------------------------------

/// `prefix`, then `ty`, then `suffix`.
fn message_around(prefix: &str, ty: &String, suffix: &str) -> (s: String)
    ensures
        s@ == prefix@ + ty@ + suffix@,
{
    let mut s = String::new();
    string_push_str(&mut s, prefix);
    string_push_str(&mut s, ty.as_str());
    string_push_str(&mut s, suffix);
    assert(s@ =~= prefix@ + ty@ + suffix@);
    s
}

fn out_of_range_message(index: u64, ty: &String, count: usize) -> (s: String)
    ensures
        s@ == msg_out_of_range(index as int, ty@, count as int),
{
    let mut s = String::new();
    string_push_str(&mut s, "state-machine state index ");
    push_decimal_u128(&mut s, index as u128);
    string_push_str(&mut s, " is out of range for '");
    string_push_str(&mut s, ty.as_str());
    string_push_str(&mut s, "' with ");
    push_decimal_u128(&mut s, count as u128);
    string_push_str(&mut s, " states");
    assert(s@ =~= msg_out_of_range(index as int, ty@, count as int));
    s
}

/// Index of the first field named `name`.
fn find_field(fields: &Vec<(String, Expr)>, name: &String) -> (r: Option<usize>)
    ensures
        r matches Some(i) ==> i < fields@.len() && field_index_from(fields@, name@, 0) == Some(i as int),
        r is None ==> field_index_from(fields@, name@, 0) is None,
{
    let mut i: usize = 0;
    let nc = str_chars(name.as_str());
    while i < fields.len()
        invariant
            i <= fields@.len(),
            nc@ == name@,
            field_index_from(fields@, name@, 0) == field_index_from(fields@, name@, i as int),
        decreases fields@.len() - i,
    {
        let fc = str_chars(fields[i].0.as_str());
        if chars_eq(fc.as_slice(), nc.as_slice()) {
            return Some(i);
        }
        i = i + 1;
    }
    None
}

/// Whether `names` holds `name`.
fn contains_name(names: &Vec<String>, name: &String) -> (r: bool)
    ensures
        r == names@.map_values(|s: String| s@).contains(name@),
{
    let ghost v = names@.map_values(|s: String| s@);
    let nc = str_chars(name.as_str());
    let mut i: usize = 0;
    while i < names.len()
        invariant
            i <= names@.len(),
            nc@ == name@,
            v == names@.map_values(|s: String| s@),
            forall|j: int| 0 <= j < i ==> v[j] != name@,
        decreases names@.len() - i,
    {
        let c = str_chars(names[i].as_str());
        if chars_eq(c.as_slice(), nc.as_slice()) {
            assert(v[i as int] == name@);
            return true;
        }
        i = i + 1;
    }
    false
}

fn validate_lifecycle_create(specs: &NameMap<LifecycleSpec>, ctx: &ActionLifecycleContext, c: &CreateExpr) -> (r: Result<(), CompileError>)
    ensures
        r is Ok <==> spec_create_error(specs_view(specs), ctx.view(), *c) is None,
        r matches Err(e) ==> spec_create_error(specs_view(specs), ctx.view(), *c) == Some((e.message@, e.span)),
{
    proof {
        lemma_specs_lookup(specs);
    }
    let i = match specs.position(c.ty.as_str()) {
        Some(i) => i,
        None => return Ok(()),
    };
    let spec = &specs.entries[i].1;
    if spec.state_field_span.is_none() {
        return Ok(());
    }
    let k = match find_field(&c.fields, &spec.state_field_name) {
        Some(k) => k,
        None => {
            let m = message_around("create of state-machine type '", &c.ty, "' must set its state field");
            return Err(CompileError::new(m, c.span));
        },
    };
    let state_expr = &c.fields[k].1;
    let updates_existing = contains_name(&ctx.consumed_lifecycle_types, &c.ty);
    match static_lifecycle_state_value(state_expr, ctx, &spec.states) {
        None => {
            if !updates_existing {
                let m = message_around(
                    "initial create of state-machine type '",
                    &c.ty,
                    "' must use a statically known declared state",
                );
                return Err(CompileError::new(m, c.span));
            }
            Ok(())
        },
        Some(v) => {
            if v >= spec.states.len() as u64 {
                let m = out_of_range_message(v, &c.ty, spec.states.len());
                return Err(CompileError::new(m, c.span));
            }
            Ok(())
        },
    }
}

fn validate_lifecycle_expr(specs: &NameMap<LifecycleSpec>, ctx: &ActionLifecycleContext, e: &Expr) -> (r: Result<(), CompileError>)
    ensures
        r is Ok <==> spec_expr_error(specs_view(specs), ctx.view(), *e) is None,
        r matches Err(err) ==> spec_expr_error(specs_view(specs), ctx.view(), *e) == Some((err.message@, err.span)),
    decreases e,
{
    match e {
        Expr::Create(c) => {
            validate_lifecycle_create(specs, ctx, c)?;
            validate_fields(specs, ctx, &c.fields)?;
            if let Some(l) = &c.lock {
                validate_lifecycle_expr(specs, ctx, l)?;
            }
            Ok(())
        },
        Expr::Assign { target, value } => {
            validate_lifecycle_expr(specs, ctx, target)?;
            validate_lifecycle_expr(specs, ctx, value)
        },
        Expr::Binary { left, right } => {
            validate_lifecycle_expr(specs, ctx, left)?;
            validate_lifecycle_expr(specs, ctx, right)
        },
        Expr::Unary(x) => validate_lifecycle_expr(specs, ctx, x),
        Expr::Call { func, args } => {
            validate_lifecycle_expr(specs, ctx, func)?;
            validate_exprs(specs, ctx, args)
        },
        Expr::FieldAccess { expr, .. } => validate_lifecycle_expr(specs, ctx, expr),
        Expr::Index { expr, index } => {
            validate_lifecycle_expr(specs, ctx, expr)?;
            validate_lifecycle_expr(specs, ctx, index)
        },
        Expr::Consume(x) => validate_lifecycle_expr(specs, ctx, x),
        Expr::Transfer { expr, to } => {
            validate_lifecycle_expr(specs, ctx, expr)?;
            validate_lifecycle_expr(specs, ctx, to)
        },
        Expr::Destroy(x) => validate_lifecycle_expr(specs, ctx, x),
        Expr::Claim(x) => validate_lifecycle_expr(specs, ctx, x),
        Expr::Settle(x) => validate_lifecycle_expr(specs, ctx, x),
        Expr::Assert { condition, message } => {
            validate_lifecycle_expr(specs, ctx, condition)?;
            validate_lifecycle_expr(specs, ctx, message)
        },
        Expr::Require(x) => validate_lifecycle_expr(specs, ctx, x),
        Expr::Block(stmts) => validate_stmt_list(specs, ctx, stmts),
        Expr::Tuple(items) => validate_exprs(specs, ctx, items),
        Expr::Array(items) => validate_exprs(specs, ctx, items),
        Expr::If { condition, then_branch, else_branch } => {
            validate_lifecycle_expr(specs, ctx, condition)?;
            validate_lifecycle_expr(specs, ctx, then_branch)?;
            validate_lifecycle_expr(specs, ctx, else_branch)
        },
        Expr::Cast { expr, .. } => validate_lifecycle_expr(specs, ctx, expr),
        Expr::Range { start, end } => {
            validate_lifecycle_expr(specs, ctx, start)?;
            validate_lifecycle_expr(specs, ctx, end)
        },
        Expr::StructInit { fields, .. } => validate_fields(specs, ctx, fields),
        Expr::Match { expr, arms } => {
            validate_lifecycle_expr(specs, ctx, expr)?;
            validate_arms(specs, ctx, arms)
        },
        _ => Ok(()),
    }
}

fn validate_exprs(specs: &NameMap<LifecycleSpec>, ctx: &ActionLifecycleContext, es: &Vec<Expr>) -> (r: Result<(), CompileError>)
    ensures
        r is Ok <==> spec_exprs_error(specs_view(specs), ctx.view(), es@) is None,
        r matches Err(err) ==> spec_exprs_error(specs_view(specs), ctx.view(), es@) == Some((err.message@, err.span)),
    decreases es,
{
    let mut i: usize = 0;
    while i < es.len()
        invariant
            i <= es@.len(),
            spec_exprs_error(specs_view(specs), ctx.view(), es@.subrange(0, i as int)) is None,
        decreases es@.len() - i,
    {
        assert(es@.subrange(0, i + 1).subrange(0, i as int) =~= es@.subrange(0, i as int));
        if let Err(err) = validate_lifecycle_expr(specs, ctx, &es[i]) {
            proof {
                lemma_exprs_error_prefix(specs_view(specs), ctx.view(), es@, i + 1);
            }
            return Err(err);
        }
        i = i + 1;
    }
    assert(es@.subrange(0, es@.len() as int) =~= es@);
    Ok(())
}

fn validate_fields(specs: &NameMap<LifecycleSpec>, ctx: &ActionLifecycleContext, fs: &Vec<(String, Expr)>) -> (r: Result<(), CompileError>)
    ensures
        r is Ok <==> spec_fields_error(specs_view(specs), ctx.view(), fs@) is None,
        r matches Err(err) ==> spec_fields_error(specs_view(specs), ctx.view(), fs@) == Some((err.message@, err.span)),
    decreases fs,
{
    let mut i: usize = 0;
    while i < fs.len()
        invariant
            i <= fs@.len(),
            spec_fields_error(specs_view(specs), ctx.view(), fs@.subrange(0, i as int)) is None,
        decreases fs@.len() - i,
    {
        assert(fs@.subrange(0, i + 1).subrange(0, i as int) =~= fs@.subrange(0, i as int));
        proof {
            assert(decreases_to!(fs => fs[i as int]));
        }
        if let Err(err) = validate_lifecycle_expr(specs, ctx, &fs[i].1) {
            proof {
                lemma_fields_error_prefix(specs_view(specs), ctx.view(), fs@, i + 1);
            }
            return Err(err);
        }
        i = i + 1;
    }
    assert(fs@.subrange(0, fs@.len() as int) =~= fs@);
    Ok(())
}

fn validate_arms(specs: &NameMap<LifecycleSpec>, ctx: &ActionLifecycleContext, arms: &Vec<MatchArm>) -> (r: Result<(), CompileError>)
    ensures
        r is Ok <==> spec_arms_error(specs_view(specs), ctx.view(), arms@) is None,
        r matches Err(err) ==> spec_arms_error(specs_view(specs), ctx.view(), arms@) == Some((err.message@, err.span)),
    decreases arms,
{
    let mut i: usize = 0;
    while i < arms.len()
        invariant
            i <= arms@.len(),
            spec_arms_error(specs_view(specs), ctx.view(), arms@.subrange(0, i as int)) is None,
        decreases arms@.len() - i,
    {
        assert(arms@.subrange(0, i + 1).subrange(0, i as int) =~= arms@.subrange(0, i as int));
        proof {
            assert(decreases_to!(arms => arms[i as int]));
        }
        if let Err(err) = validate_lifecycle_expr(specs, ctx, &arms[i].value) {
            proof {
                lemma_arms_error_prefix(specs_view(specs), ctx.view(), arms@, i + 1);
            }
            return Err(err);
        }
        i = i + 1;
    }
    assert(arms@.subrange(0, arms@.len() as int) =~= arms@);
    Ok(())
}

fn validate_lifecycle_stmt(specs: &NameMap<LifecycleSpec>, ctx: &ActionLifecycleContext, s: &Stmt) -> (r: Result<(), CompileError>)
    ensures
        r is Ok <==> spec_stmt_error(specs_view(specs), ctx.view(), *s) is None,
        r matches Err(err) ==> spec_stmt_error(specs_view(specs), ctx.view(), *s) == Some((err.message@, err.span)),
    decreases s,
{
    match s {
        Stmt::Let { value, .. } => validate_lifecycle_expr(specs, ctx, value),
        Stmt::Expr(e) => validate_lifecycle_expr(specs, ctx, e),
        Stmt::Return(Some(e)) => validate_lifecycle_expr(specs, ctx, e),
        Stmt::Return(None) => Ok(()),
        Stmt::If { condition, then_branch, else_branch } => {
            validate_lifecycle_expr(specs, ctx, condition)?;
            validate_stmt_list(specs, ctx, then_branch)?;
            if let Some(b) = else_branch {
                validate_stmt_list(specs, ctx, b)?;
            }
            Ok(())
        },
        Stmt::For { iterable, body, .. } => {
            validate_lifecycle_expr(specs, ctx, iterable)?;
            validate_stmt_list(specs, ctx, body)
        },
        Stmt::While { condition, body } => {
            validate_lifecycle_expr(specs, ctx, condition)?;
            validate_stmt_list(specs, ctx, body)
        },
    }
}

fn validate_stmt_list(specs: &NameMap<LifecycleSpec>, ctx: &ActionLifecycleContext, ss: &Vec<Stmt>) -> (r: Result<(), CompileError>)
    ensures
        r is Ok <==> spec_stmts_error(specs_view(specs), ctx.view(), ss@) is None,
        r matches Err(err) ==> spec_stmts_error(specs_view(specs), ctx.view(), ss@) == Some((err.message@, err.span)),
    decreases ss,
{
    let mut i: usize = 0;
    while i < ss.len()
        invariant
            i <= ss@.len(),
            spec_stmts_error(specs_view(specs), ctx.view(), ss@.subrange(0, i as int)) is None,
        decreases ss@.len() - i,
    {
        assert(ss@.subrange(0, i + 1).subrange(0, i as int) =~= ss@.subrange(0, i as int));
        if let Err(err) = validate_lifecycle_stmt(specs, ctx, &ss[i]) {
            proof {
                lemma_stmts_error_prefix(specs_view(specs), ctx.view(), ss@, i + 1);
            }
            return Err(err);
        }
        i = i + 1;
    }
    assert(ss@.subrange(0, ss@.len() as int) =~= ss@);
    Ok(())
}

/// Once a prefix of the list has an error, the whole list has that error.
proof fn lemma_exprs_error_prefix(specs: Specs, ctx: CtxView, xs: Seq<Expr>, k: int)
    requires
        0 <= k <= xs.len(),
        spec_exprs_error(specs, ctx, xs.subrange(0, k)) is Some,
    ensures
        spec_exprs_error(specs, ctx, xs) == spec_exprs_error(specs, ctx, xs.subrange(0, k)),
    decreases xs.len() - k,
{
    if k == xs.len() {
        assert(xs.subrange(0, k) =~= xs);
    } else {
        let ys = xs.subrange(0, xs.len() - 1);
        assert(ys.subrange(0, k) =~= xs.subrange(0, k));
        lemma_exprs_error_prefix(specs, ctx, ys, k);
    }
}

/// Once a prefix of the list has an error, the whole list has that error.
proof fn lemma_fields_error_prefix(specs: Specs, ctx: CtxView, xs: Seq<(String, Expr)>, k: int)
    requires
        0 <= k <= xs.len(),
        spec_fields_error(specs, ctx, xs.subrange(0, k)) is Some,
    ensures
        spec_fields_error(specs, ctx, xs) == spec_fields_error(specs, ctx, xs.subrange(0, k)),
    decreases xs.len() - k,
{
    if k == xs.len() {
        assert(xs.subrange(0, k) =~= xs);
    } else {
        let ys = xs.subrange(0, xs.len() - 1);
        assert(ys.subrange(0, k) =~= xs.subrange(0, k));
        lemma_fields_error_prefix(specs, ctx, ys, k);
    }
}

/// Once a prefix of the list has an error, the whole list has that error.
proof fn lemma_arms_error_prefix(specs: Specs, ctx: CtxView, xs: Seq<MatchArm>, k: int)
    requires
        0 <= k <= xs.len(),
        spec_arms_error(specs, ctx, xs.subrange(0, k)) is Some,
    ensures
        spec_arms_error(specs, ctx, xs) == spec_arms_error(specs, ctx, xs.subrange(0, k)),
    decreases xs.len() - k,
{
    if k == xs.len() {
        assert(xs.subrange(0, k) =~= xs);
    } else {
        let ys = xs.subrange(0, xs.len() - 1);
        assert(ys.subrange(0, k) =~= xs.subrange(0, k));
        lemma_arms_error_prefix(specs, ctx, ys, k);
    }
}

/// Once a prefix of the list has an error, the whole list has that error.
proof fn lemma_stmts_error_prefix(specs: Specs, ctx: CtxView, xs: Seq<Stmt>, k: int)
    requires
        0 <= k <= xs.len(),
        spec_stmts_error(specs, ctx, xs.subrange(0, k)) is Some,
    ensures
        spec_stmts_error(specs, ctx, xs) == spec_stmts_error(specs, ctx, xs.subrange(0, k)),
    decreases xs.len() - k,
{
    if k == xs.len() {
        assert(xs.subrange(0, k) =~= xs);
    } else {
        let ys = xs.subrange(0, xs.len() - 1);
        assert(ys.subrange(0, k) =~= xs.subrange(0, k));
        lemma_stmts_error_prefix(specs, ctx, ys, k);
    }
}

/// Records the state that `raw` names unless it is already recorded.
fn add_state_exec(states: &mut Vec<String>, raw: &String)
    ensures
        final(states)@.map_values(|s: String| s@) == add_state(old(states)@.map_values(|s: String| s@), last_segment(raw@)),
{
    let chars = str_chars(raw.as_str());
    let seg = last_segment_chars(chars.as_slice(), chars.len());
    assert(chars@.subrange(0, chars@.len() as int) =~= chars@);
    let st = string_from_chars(seg.as_slice());
    if !contains_name(states, &st) {
        states.push(st);
        assert(states@.map_values(|s: String| s@) =~= old(states)@.map_values(|s: String| s@).push(st@));
    }
}

fn machine_states_exec(ts: &Vec<Transition>) -> (r: Vec<String>)
    ensures
        r@.map_values(|s: String| s@) == machine_states(ts@),
{
    let mut states: Vec<String> = Vec::new();
    let mut i: usize = 0;
    assert(states@.map_values(|s: String| s@) =~= machine_states(ts@.subrange(0, 0)));
    while i < ts.len()
        invariant
            i <= ts@.len(),
            states@.map_values(|s: String| s@) == machine_states(ts@.subrange(0, i as int)),
        decreases ts@.len() - i,
    {
        assert(ts@.subrange(0, i + 1).drop_last() =~= ts@.subrange(0, i as int));
        add_state_exec(&mut states, &ts[i].from);
        add_state_exec(&mut states, &ts[i].to);
        i = i + 1;
    }
    assert(ts@.subrange(0, ts@.len() as int) =~= ts@);
    states
}

fn action_lifecycle_context(specs: &NameMap<LifecycleSpec>, action: &ActionDef) -> (ctx: ActionLifecycleContext)
    ensures
        ctx.view() == spec_action_context(specs_view(specs), *action),
{
    let mut ctx = ActionLifecycleContext::new();
    let mut i: usize = 0;
    proof {
        lemma_specs_lookup(specs);
    }
    assert(action.params@.subrange(0, 0) =~= Seq::<Param>::empty());
    while i < action.params.len()
        invariant
            i <= action.params@.len(),
            ctx.view() == params_context(specs_view(specs), action.params@.subrange(0, i as int)),
            forall|k: Seq<char>| #[trigger] find_last(specs_view(specs), k) == (match specs.lookup(k) {
                Some(v) => Some(v.view()),
                None => None,
            }),
        decreases action.params@.len() - i,
    {
        assert(action.params@.subrange(0, i + 1).drop_last() =~= action.params@.subrange(0, i as int));
        let p = &action.params[i];
        if let Type::Named(t) = &p.ty {
            if specs.contains_key(t.as_str()) {
                ctx.record_var(p.name.clone(), t.clone());
            }
        }
        i = i + 1;
    }
    assert(action.params@.subrange(0, action.params@.len() as int) =~= action.params@);
    collect_lifecycle_stmt_context(specs, &mut ctx, &action.body);
    ctx
}

/// Validates the declared state machines of `module` and statically checks
/// every lifecycle-aware create that the source decides.
pub fn check(module: &Module) -> (r: Result<(), CompileError>)
    ensures
        r is Ok <==> spec_check(*module) is None,
        r matches Err(e) ==> spec_check(*module) == Some((e.message@, e.span)),
{
    let items = &module.items;
    let mut specs: NameMap<LifecycleSpec> = NameMap::new();
    let mut i: usize = 0;
    assert(items@.subrange(0, 0) =~= Seq::<Item>::empty());
    assert(specs_view(&specs) =~= Seq::<(Seq<char>, SpecView)>::empty());
    while i < items.len()
        invariant
            i <= items@.len(),
            items == &module.items,
            spec_build(items@.subrange(0, i as int)) == Ok::<Specs, (Seq<char>, Span)>(specs_view(&specs)),
        decreases items@.len() - i,
    {
        assert(items@.subrange(0, i + 1).drop_last() =~= items@.subrange(0, i as int));
        if let Item::StateMachine(m) = &items[i] {
            let states = machine_states_exec(&m.transitions);
            if states.len() < 2 {
                proof {
                    lemma_build_error_persists(items@, i + 1);
                }
                let mut msg = String::new();
                string_push_str(&mut msg, "state machine must mention at least two states");
                return Err(CompileError::new(msg, m.span));
            }
            let spec = LifecycleSpec {
                states,
                state_field_name: m.target.field.clone(),
                state_field_span: Some(m.target.span),
            };
            let ghost before = specs_view(&specs);
            specs.insert(m.target.base.clone(), spec);
            assert(specs_view(&specs) =~= before.push((m.target.base@, spec.view())));
        }
        i = i + 1;
    }
    assert(items@.subrange(0, items@.len() as int) =~= items@);
    let empty = ActionLifecycleContext::new();
    let mut j: usize = 0;
    assert(items@.subrange(0, 0) =~= Seq::<Item>::empty());
    while j < items.len()
        invariant
            j <= items@.len(),
            items == &module.items,
            spec_build(items@) == Ok::<Specs, (Seq<char>, Span)>(specs_view(&specs)),
            empty.view() == empty_ctx(),
            spec_items_error(specs_view(&specs), items@.subrange(0, j as int)) is None,
        decreases items@.len() - j,
    {
        assert(items@.subrange(0, j + 1).drop_last() =~= items@.subrange(0, j as int));
        let res = match &items[j] {
            Item::Action(a) => {
                let ctx = action_lifecycle_context(&specs, a);
                validate_stmt_list(&specs, &ctx, &a.body)
            },
            Item::Function(f) => validate_stmt_list(&specs, &empty, &f.body),
            Item::Lock(l) => validate_stmt_list(&specs, &empty, &l.body),
            _ => Ok(()),
        };
        if let Err(e) = res {
            proof {
                lemma_items_error_prefix(specs_view(&specs), items@, j + 1);
            }
            return Err(e);
        }
        j = j + 1;
    }
    assert(items@.subrange(0, items@.len() as int) =~= items@);
    Ok(())
}

/// Once the lifecycles of a prefix fail to build, those of the whole list fail the same way.
proof fn lemma_build_error_persists(items: Seq<Item>, k: int)
    requires
        0 <= k <= items.len(),
        spec_build(items.subrange(0, k)) is Err,
    ensures
        spec_build(items) == spec_build(items.subrange(0, k)),
    decreases items.len() - k,
{
    if k == items.len() {
        assert(items.subrange(0, k) =~= items);
    } else {
        let ys = items.drop_last();
        assert(ys.subrange(0, k) =~= items.subrange(0, k));
        lemma_build_error_persists(ys, k);
    }
}

/// Once a prefix of the items has an error, the whole list has that error.
proof fn lemma_items_error_prefix(specs: Specs, items: Seq<Item>, k: int)
    requires
        0 <= k <= items.len(),
        spec_items_error(specs, items.subrange(0, k)) is Some,
    ensures
        spec_items_error(specs, items) == spec_items_error(specs, items.subrange(0, k)),
    decreases items.len() - k,
{
    if k == items.len() {
        assert(items.subrange(0, k) =~= items);
    } else {
        let ys = items.drop_last();
        assert(ys.subrange(0, k) =~= items.subrange(0, k));
        lemma_items_error_prefix(specs, ys, k);
    }
}

/// Looking a name up in the map agrees with looking it up in its abstract view.
pub proof fn lemma_find_last_map<V, W>(s: Seq<(Seq<char>, V)>, f: spec_fn(V) -> W, k: Seq<char>)
    ensures
        find_last(s.map_values(|p: (Seq<char>, V)| (p.0, f(p.1))), k) == (match find_last(s, k) {
            Some(v) => Some(f(v)),
            None => None,
        }),
    decreases s.len(),
{
    if s.len() > 0 {
        let m = s.map_values(|p: (Seq<char>, V)| (p.0, f(p.1)));
        assert(m.drop_last() =~= s.drop_last().map_values(|p: (Seq<char>, V)| (p.0, f(p.1))));
        lemma_find_last_map(s.drop_last(), f, k);
    }
}

proof fn lemma_specs_lookup(specs: &NameMap<LifecycleSpec>)
    ensures
        forall|k: Seq<char>| #[trigger] find_last(specs_view(specs), k) == (match specs.lookup(k) {
            Some(v) => Some(v.view()),
            None => None,
        }),
{
    assert forall|k: Seq<char>| #[trigger] find_last(specs_view(specs), k) == (match specs.lookup(k) {
        Some(v) => Some(v.view()),
        None => None,
    }) by {
        lemma_find_last_map(specs.pairs(), |v: LifecycleSpec| v.view(), k);
        assert(specs_view(specs) =~= specs.pairs().map_values(
            |p: (Seq<char>, LifecycleSpec)| (p.0, (|v: LifecycleSpec| v.view())(p.1))));
    }
}

proof fn lemma_vars_lookup(ctx: &ActionLifecycleContext)
    ensures
        forall|k: Seq<char>| #[trigger] find_last(ctx.view().vars, k) == (match ctx.variable_lifecycle_types.lookup(k) {
            Some(v) => Some(v@),
            None => None,
        }),
{
    assert forall|k: Seq<char>| #[trigger] find_last(ctx.view().vars, k) == (match ctx.variable_lifecycle_types.lookup(k) {
        Some(v) => Some(v@),
        None => None,
    }) by {
        lemma_find_last_map(ctx.variable_lifecycle_types.pairs(), |v: String| v@, k);
        assert(ctx.view().vars =~= ctx.variable_lifecycle_types.pairs().map_values(
            |p: (Seq<char>, String)| (p.0, (|v: String| v@)(p.1))));
    }
}

} // verus!
