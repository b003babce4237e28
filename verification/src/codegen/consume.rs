//! Which consumed cell a state transition or a settle refers to.

use vstd::prelude::*;
use crate::codegen::generator::CodeGenerator;
use crate::ir::IrStateTransitionEdge;
use crate::text::{chars_eq, str_chars};

verus! {

broadcast use vstd::std_specs::hash::group_hash_axioms;

/// The consumed type name of a variable, if any.
pub open spec fn consumed_type_of(g: CodeGenerator, id: usize) -> Option<Seq<char>> {
    if g.consume_type_names@.contains_key(id) {
        Some(g.consume_type_names@[id]@)
    } else {
        None
    }
}

/// The first consumed variable, in lowering order from position `i`, of type `ty`.
pub open spec fn consumed_of_type_from(g: CodeGenerator, ty: Seq<char>, i: int) -> Option<usize>
    decreases g.consume_order@.len() - i,
{
    if i < 0 || i >= g.consume_order@.len() {
        None
    } else if consumed_type_of(g, g.consume_order@[i]) == Some(ty) {
        Some(g.consume_order@[i])
    } else {
        consumed_of_type_from(g, ty, i + 1)
    }
}

/// The first input binding that the edges name.
pub open spec fn first_input_binding(edges: Seq<IrStateTransitionEdge>, i: int) -> Option<Seq<char>>
    decreases edges.len() - i,
{
    if i < 0 || i >= edges.len() {
        None
    } else {
        match edges[i].input_binding {
            Some(b) => Some(b@),
            None => first_input_binding(edges, i + 1),
        }
    }
}

/// The consumed variable a state transition of `ty` reads: the one bound to
/// the edges' first explicit input binding, when that has type `ty`, else the
/// first consumed variable of type `ty`.
pub open spec fn spec_consumed_for_transition(g: CodeGenerator, ty: Seq<char>, edges: Seq<IrStateTransitionEdge>) -> Option<usize> {
    match first_input_binding(edges, 0) {
        Some(b) => match g.consume_binding_ids.lookup(b) {
            Some(id) => if consumed_type_of(g, id) == Some(ty) { Some(id) } else { None },
            None => None,
        },
        None => consumed_of_type_from(g, ty, 0),
    }
}

fn strings_match(a: &String, b: &str) -> (r: bool)
    ensures
        r == (a@ == b@),
{
    let x = str_chars(a.as_str());
    let y = str_chars(b);
    chars_eq(x.as_slice(), y.as_slice())
}

impl CodeGenerator {
    fn consumed_type_is(&self, id: usize, ty_name: &str) -> (r: bool)
        ensures
            r == (consumed_type_of(*self, id) == Some(ty_name@)),
    {
        match self.consume_type_names.get(&id) {
            Some(t) => strings_match(t, ty_name),
            None => false,
        }
    }

    /// The first consumed variable of type `ty_name`, in lowering order.
    pub fn consumed_var_for_type(&self, ty_name: &str) -> (r: Option<usize>)
        ensures
            r == consumed_of_type_from(*self, ty_name@, 0),
    {
        let mut i: usize = 0;
        while i < self.consume_order.len()
            invariant
                i <= self.consume_order@.len(),
                consumed_of_type_from(*self, ty_name@, 0) == consumed_of_type_from(*self, ty_name@, i as int),
            decreases self.consume_order@.len() - i,
        {
            let id = self.consume_order[i];
            if self.consumed_type_is(id, ty_name) {
                return Some(id);
            }
            i = i + 1;
        }
        None
    }

    /// The consumed variable that a state transition of `ty_name` checks.
    pub fn consumed_var_for_state_transition(&self, ty_name: &str, action_edges: &[IrStateTransitionEdge]) -> (r: Option<usize>)
        ensures
            r == spec_consumed_for_transition(*self, ty_name@, action_edges@),
    {
        let mut i: usize = 0;
        while i < action_edges.len()
            invariant
                i <= action_edges@.len(),
                first_input_binding(action_edges@, 0) == first_input_binding(action_edges@, i as int),
            decreases action_edges@.len() - i,
        {
            if let Some(binding) = &action_edges[i].input_binding {
                let id = match self.consume_binding_ids.get(binding.as_str()) {
                    Some(id) => id,
                    None => return None,
                };
                if self.consumed_type_is(id, ty_name) {
                    return Some(id);
                }
                return None;
            }
            i = i + 1;
        }
        self.consumed_var_for_type(ty_name)
    }
}

} // verus!
