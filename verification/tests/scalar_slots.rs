use std::collections::{BTreeMap, BTreeSet};

use cellscript::codegen::abi::CallableAbi;
use cellscript::codegen::scalar_slots::interference::{clique, connect};
use cellscript::codegen::scalar_slots::{allocate, liveness, Variables};
use cellscript::ir::{
    BinaryOp, BlockId, IrBlock, IrBody, IrConst, IrInstruction, IrOperand, IrParam, IrTerminator, IrType, IrVar, ParamSource,
};
use cellscript::names::NameMap;

fn set(values: &[usize]) -> Variables {
    values.iter().copied().collect::<Variables>()
}

fn var(id: usize, ty: IrType) -> IrVar {
    IrVar { id, name: format!("v{}", id), ty }
}

fn param(id: usize) -> IrParam {
    IrParam {
        name: format!("p{}", id),
        ty: IrType::U64,
        is_mut: false,
        is_ref: false,
        is_read_ref: false,
        source: ParamSource::Default,
        binding: var(id, IrType::U64),
    }
}

fn body(blocks: Vec<IrBlock>) -> IrBody {
    IrBody {
        consume_set: vec![],
        read_refs: vec![],
        create_set: vec![],
        mutate_set: vec![],
        write_intents: vec![],
        blocks,
        cell_bindings: vec![],
        bounded_collection_ops: vec![],
        borrow_regions: vec![],
        trusted_external_calls: vec![],
    }
}

fn add(dest: usize, left: usize, right: usize) -> IrInstruction {
    IrInstruction::Binary {
        dest: var(dest, IrType::U64),
        op: BinaryOp::Add,
        left: IrOperand::Var(var(left, IrType::U64)),
        right: IrOperand::Var(var(right, IrType::U64)),
    }
}

#[test]
fn liveness_keeps_loop_carried_and_joined_values() {
    let effects = BTreeMap::from([
        (0, vec![(set(&[]), set(&[0, 1]))]),
        (1, vec![(set(&[0, 1]), set(&[2]))]),
        (2, vec![(set(&[2]), set(&[0]))]),
        (3, vec![(set(&[0, 1]), set(&[]))]),
    ]);
    let successors = BTreeMap::from([(0, vec![1]), (1, vec![2, 3]), (2, vec![1]), (3, vec![])]);
    let (input, output) = liveness(&effects, &successors);
    assert_eq!(input[&1], set(&[0, 1]));
    assert_eq!(output[&1], set(&[0, 1, 2]));
    assert_eq!(input[&2], set(&[1, 2]));
    assert_eq!(input[&3], set(&[0, 1]));
}

#[test]
fn liveness_of_a_straight_line_block() {
    let effects = BTreeMap::from([(0, vec![(set(&[0, 1]), set(&[2])), (set(&[2]), set(&[]))])]);
    let successors = BTreeMap::from([(0, vec![])]);
    let (input, output) = liveness(&effects, &successors);
    assert_eq!(input[&0], set(&[0, 1]));
    assert_eq!(output[&0], set(&[]));
}

#[test]
fn connect_joins_two_variables_both_ways() {
    let mut graph: BTreeMap<usize, Variables> = BTreeMap::from([(0, set(&[])), (1, set(&[])), (2, set(&[]))]);
    connect(0, 2, &mut graph);
    connect(1, 1, &mut graph);
    assert_eq!(graph[&0], set(&[2]));
    assert_eq!(graph[&1], set(&[]));
    assert_eq!(graph[&2], set(&[0]));
}

#[test]
fn clique_joins_every_pair() {
    let mut graph: BTreeMap<usize, Variables> = BTreeMap::from([(0, set(&[])), (1, set(&[])), (2, set(&[])), (3, set(&[]))]);
    clique(&set(&[0, 1, 3]), &mut graph);
    assert_eq!(graph[&0], set(&[1, 3]));
    assert_eq!(graph[&1], set(&[0, 3]));
    assert_eq!(graph[&2], set(&[]));
    assert_eq!(graph[&3], set(&[0, 1]));
}

#[test]
fn allocate_reuses_the_slot_of_a_dead_parameter() {
    // v2 = p0 + p1; return v2
    let blocks = vec![IrBlock {
        id: BlockId(0),
        instructions: vec![add(2, 0, 1)],
        terminator: IrTerminator::Return(Some(IrOperand::Var(var(2, IrType::U64)))),
    }];
    let slots = allocate(&body(blocks), &vec![param(0), param(1)], &NameMap::new(), &vec![]).expect("scalar body");
    assert_eq!(slots, BTreeMap::from([(0, 0), (1, 8), (2, 0)]));
}

#[test]
fn allocate_keeps_loop_carried_values_apart() {
    // b0: v2 = p0 + p1; jump b1
    // b1: v3 = v2 + p0; branch v3 ? b1 : b2
    // b2: return v2
    let blocks = vec![
        IrBlock { id: BlockId(0), instructions: vec![add(2, 0, 1)], terminator: IrTerminator::Jump(BlockId(1)) },
        IrBlock {
            id: BlockId(1),
            instructions: vec![add(3, 2, 0)],
            terminator: IrTerminator::Branch {
                cond: IrOperand::Var(var(3, IrType::Bool)),
                then_block: BlockId(1),
                else_block: BlockId(2),
            },
        },
        IrBlock {
            id: BlockId(2),
            instructions: vec![],
            terminator: IrTerminator::Return(Some(IrOperand::Var(var(2, IrType::U64)))),
        },
    ];
    let slots = allocate(&body(blocks), &vec![param(0), param(1)], &NameMap::new(), &vec![]).expect("scalar body");
    // p0 and v2 stay live around the loop, v3 only until the branch.
    assert_eq!(slots, BTreeMap::from([(0, 0), (1, 8), (2, 8), (3, 16)]));
}

#[test]
fn allocate_accepts_local_scalar_calls() {
    let mut abis = NameMap::new();
    abis.insert(
        "helper".to_string(),
        CallableAbi {
            params: vec![param(9)],
            type_hash_param_indices: vec![],
            runtime_bound_param_indices: vec![],
            bounded_plan_param_indices: vec![],
        },
    );
    let blocks = vec![IrBlock {
        id: BlockId(0),
        instructions: vec![IrInstruction::Call {
            dest: Some(var(1, IrType::U64)),
            func: "helper".to_string(),
            args: vec![IrOperand::Var(var(0, IrType::U64))],
        }],
        terminator: IrTerminator::Return(Some(IrOperand::Var(var(1, IrType::U64)))),
    }];
    let local = vec!["helper".to_string()];
    let slots = allocate(&body(blocks.clone()), &vec![param(0)], &abis, &local).expect("local scalar call");
    assert_eq!(slots, BTreeMap::from([(0, 0), (1, 0)]));
    // the same call to a callee that is not local keeps the layout
    assert_eq!(allocate(&body(blocks), &vec![param(0)], &abis, &vec![]), None);
}

#[test]
fn allocate_keeps_layout_for_what_it_does_not_understand() {
    let ret = IrTerminator::Return(None);
    // a cell binding
    let mut with_cells = body(vec![IrBlock { id: BlockId(0), instructions: vec![], terminator: ret.clone() }]);
    with_cells.cell_bindings = vec!["token".to_string()];
    assert_eq!(allocate(&with_cells, &vec![], &NameMap::new(), &vec![]), None);
    // a wide value
    let wide = vec![IrBlock {
        id: BlockId(0),
        instructions: vec![IrInstruction::LoadConst { dest: var(0, IrType::U128), value: IrConst::U128(1) }],
        terminator: ret.clone(),
    }];
    assert_eq!(allocate(&body(wide), &vec![], &NameMap::new(), &vec![]), None);
    // a jump to a missing block
    let dangling = vec![IrBlock { id: BlockId(0), instructions: vec![], terminator: IrTerminator::Jump(BlockId(7)) }];
    assert_eq!(allocate(&body(dangling), &vec![], &NameMap::new(), &vec![]), None);
    // two blocks with one id
    let twice = vec![
        IrBlock { id: BlockId(0), instructions: vec![], terminator: ret.clone() },
        IrBlock { id: BlockId(0), instructions: vec![], terminator: ret.clone() },
    ];
    assert_eq!(allocate(&body(twice), &vec![], &NameMap::new(), &vec![]), None);
    // a parameter passed by reference
    let mut by_ref = param(0);
    by_ref.is_ref = true;
    let empty = vec![IrBlock { id: BlockId(0), instructions: vec![], terminator: ret }];
    assert_eq!(allocate(&body(empty), &vec![by_ref], &NameMap::new(), &vec![]), None);
}
