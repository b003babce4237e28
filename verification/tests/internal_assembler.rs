use cellscript::assembler::cfg::{MachineCfgEdge, MachineCfgEdgeKind, MachineTerminator};
use cellscript::assembler::emit::assemble_elf_internal;
use cellscript::assembler::encode::encode_li_sequence;
use cellscript::assembler::order::{build_machine_layout_order, validate_machine_layout_order, MachinePlacedBlock};
use cellscript::assembler::parse::SectionKind;
use cellscript::assembler::plan::{unreachable_machine_block_count, MachineLayoutPlan};

const SUPPORTED_INTERNAL_ASSEMBLER_MNEMONICS: &[(&str, &str)] = &[
    ("add", "add t0, a0, a1"),
    ("addi", "addi t0, t0, -1"),
    ("and", "and t2, a0, a1"),
    ("andi", "andi a0, a0, 255"),
    ("beq", "beq a0, a1, branch_target"),
    ("bge", "bge a0, a1, branch_target"),
    ("bgeu", "bgeu a0, a1, branch_target"),
    ("bgez", "bgez a0, branch_target"),
    ("bgt", "bgt a0, a1, branch_target"),
    ("blt", "blt a1, a0, branch_target"),
    ("bltu", "bltu a1, a0, branch_target"),
    ("bne", "bne a0, a1, branch_target"),
    ("bnez", "bnez a0, branch_target"),
    ("beqz", "beqz a0, branch_target"),
    ("call", "call helper"),
    ("div", "div t5, a0, a1"),
    ("divu", "divu t5, a0, a1"),
    ("ecall", "ecall"),
    ("j", "j done"),
    ("la", "la t3, data_label"),
    ("lbu", "lbu t2, 8(sp)"),
    ("ld", "ld t1, 0(sp)"),
    ("li", "li a0, 8"),
    ("mul", "mul t4, a0, a1"),
    ("mv", "mv s9, a0"),
    ("neg", "neg s6, a0"),
    ("or", "or t3, a0, a1"),
    ("rem", "rem t6, a0, a1"),
    ("remu", "remu t6, a0, a1"),
    ("ret", "ret"),
    ("sb", "sb t1, 8(sp)"),
    ("sd", "sd t0, 0(sp)"),
    ("seqz", "seqz s4, a0"),
    ("sgt", "sgt s2, a0, a1"),
    ("sgtu", "sgtu s2, a0, a1"),
    ("sh", "sh t1, 10(sp)"),
    ("slli", "slli s7, a0, 3"),
    ("slt", "slt s0, a1, a0"),
    ("sltu", "sltu s1, a1, a0"),
    ("snez", "snez s5, a0"),
    ("srli", "srli s8, a0, 1"),
    ("sub", "sub t1, a0, a1"),
    ("sw", "sw t1, 12(sp)"),
    ("xor", "xor a0, a0, a1"),
    ("xori", "xori s3, a0, 1"),
];

const INTENTIONALLY_UNSUPPORTED_INTERNAL_ASSEMBLER_MNEMONICS: &[(&str, &str)] = &[
    ("addiw", "addiw a0, a0, 1"),
    ("addw", "addw a0, a0, a1"),
    ("amoadd.w", "amoadd.w a0, a1, (a2)"),
    ("auipc", "auipc a0, 0"),
    ("ble", "ble a0, a1, target"),
    ("bleu", "bleu a0, a1, target"),
    ("blez", "blez a0, target"),
    ("bgtu", "bgtu a0, a1, target"),
    ("bgtz", "bgtz a0, target"),
    ("bltz", "bltz a0, target"),
    ("c.nop", "c.nop"),
    ("csrr", "csrr a0, cycle"),
    ("fence", "fence"),
    ("flw", "flw fa0, 0(sp)"),
    ("jal", "jal ra, target"),
    ("jalr", "jalr zero, 0(ra)"),
    ("jr", "jr ra"),
    ("lb", "lb a0, 0(sp)"),
    ("lh", "lh a0, 0(sp)"),
    ("lhu", "lhu a0, 0(sp)"),
    ("lui", "lui a0, 1"),
    ("lw", "lw a0, 0(sp)"),
    ("lwu", "lwu a0, 0(sp)"),
    ("nop", "nop"),
    ("not", "not a0, a1"),
    ("ori", "ori a0, a0, 1"),
    ("sll", "sll a0, a0, a1"),
    ("slti", "slti a0, a0, 1"),
    ("sltiu", "sltiu a0, a0, 1"),
    ("sra", "sra a0, a0, a1"),
    ("srai", "srai a0, a0, 1"),
    ("srl", "srl a0, a0, a1"),
    ("subw", "subw a0, a0, a1"),
    ("tail", "tail target"),
];

fn supported_instruction_surface_lines() -> Vec<String> {
    let mut lines = vec![".section .text".to_string(), ".global entry".to_string(), "entry:".to_string(), "li a1, 4".to_string()];
    for (mnemonic, instruction) in SUPPORTED_INTERNAL_ASSEMBLER_MNEMONICS {
        if !matches!(*mnemonic, "ecall" | "ret") {
            lines.push((*instruction).to_string());
        }
    }
    lines.extend([
        "branch_target:".to_string(),
        "ecall".to_string(),
        "helper:".to_string(),
        "ret".to_string(),
        "done:".to_string(),
        "ret".to_string(),
        ".section .rodata".to_string(),
        "data_label:".to_string(),
        ".word 7".to_string(),
        ".byte 1".to_string(),
        ".ascii \"x\"".to_string(),
        ".align 3".to_string(),
    ]);
    lines
}

fn simulate_li_sequence(bytes: &[u8], register: usize) -> u64 {
    let mut regs = [0u64; 32];
    for chunk in bytes.chunks_exact(4) {
        let inst = u32::from_le_bytes(chunk.try_into().expect("instruction chunk should be four bytes"));
        let opcode = inst & 0x7f;
        let rd = ((inst >> 7) & 0x1f) as usize;
        let funct3 = (inst >> 12) & 0x7;
        let rs1 = ((inst >> 15) & 0x1f) as usize;
        match (opcode, funct3) {
            (0x37, _) => {
                regs[rd] = ((inst & 0xffff_f000) as i32 as i64) as u64;
            }
            (0x13, 0b000) => {
                let imm = sign_extend(inst >> 20, 12);
                regs[rd] = regs[rs1].wrapping_add(imm as u64);
            }
            (0x13, 0b001) => {
                let shamt = (inst >> 20) & 0x3f;
                regs[rd] = regs[rs1] << shamt;
            }
            _ => panic!("unexpected instruction in li sequence: 0x{inst:08x}"),
        }
        regs[0] = 0;
    }
    regs[register]
}

fn sign_extend(value: u32, bits: u32) -> i64 {
    let shift = 64 - bits;
    ((u64::from(value) << shift) as i64) >> shift
}

#[test]
fn internal_assembler_relaxes_out_of_range_conditional_branch() {
    let mut lines = vec![
        ".section .text".to_string(),
        ".global entry".to_string(),
        "entry:".to_string(),
        "li a0, 0".to_string(),
        "beqz a0, far_target".to_string(),
    ];
    for _ in 0..1500 {
        lines.push("addi t0, t0, 0".to_string());
    }
    lines.push("far_target:".to_string());
    lines.push("ret".to_string());

    let elf = assemble_elf_internal(&lines).expect("internal assembler should relax long conditional branches");
    assert!(elf.starts_with(b"\x7fELF"));
}

#[test]
fn internal_assembler_encodes_register_conditional_branches() {
    for mnemonic in ["beq", "bne", "blt", "bge", "bltu", "bgeu"] {
        let lines = vec![
            ".section .text".to_string(),
            ".global entry".to_string(),
            "entry:".to_string(),
            "li a0, 1".to_string(),
            "li a1, 1".to_string(),
            format!("{} a0, a1, target", mnemonic),
            "li a0, 2".to_string(),
            "target:".to_string(),
            "ret".to_string(),
        ];

        let elf = assemble_elf_internal(&lines)
            .unwrap_or_else(|err| panic!("internal assembler should encode {mnemonic}: {}", err.message));
        assert!(elf.starts_with(b"\x7fELF"), "expected ELF output for {mnemonic}");
    }
}

#[test]
fn internal_assembler_encodes_emitted_instruction_surface() {
    let lines = supported_instruction_surface_lines();

    let elf = assemble_elf_internal(&lines).expect("internal assembler should encode the emitted instruction surface");
    assert!(elf.starts_with(b"\x7fELF"));
}

#[test]
fn internal_assembler_rejects_intentionally_unsupported_mnemonics() {
    for (mnemonic, instruction) in INTENTIONALLY_UNSUPPORTED_INTERNAL_ASSEMBLER_MNEMONICS {
        let lines = vec![
            ".section .text".to_string(),
            ".global entry".to_string(),
            "entry:".to_string(),
            (*instruction).to_string(),
            "target:".to_string(),
            "ret".to_string(),
        ];
        let err = match assemble_elf_internal(&lines) {
            Ok(_) => panic!("internal assembler unexpectedly accepted unsupported mnemonic {mnemonic}"),
            Err(err) => err,
        };
        assert!(
            err.message.contains("unsupported assembly instruction"),
            "unexpected error for unsupported mnemonic {mnemonic}: {}",
            err.message
        );
    }
}

#[test]
fn internal_assembler_encodes_full_width_li_literals() {
    let lines = vec![
        ".section .text".to_string(),
        ".global entry".to_string(),
        "entry:".to_string(),
        "li a0, 9223372036854775808".to_string(),
        "li a1, 18446744073709551615".to_string(),
        "ret".to_string(),
    ];

    let elf = assemble_elf_internal(&lines).expect("internal assembler should encode u64-width li literals");
    assert!(elf.starts_with(b"\x7fELF"));
}

#[test]
fn rv64_li_boundary_values_materialize_correct_bits() {
    let cases = [(0x7fff_f7ffi128, 8usize), (0x7fff_f800i128, 60usize), (0x7fff_ffffi128, 60usize), (0x8000_0000i128, 60usize)];

    for (value, expected_size) in cases {
        let mut bytes = Vec::new();
        encode_li_sequence(&mut bytes, 10, value).expect("li should encode");
        assert_eq!(bytes.len(), expected_size, "unexpected li size for {value:#x}");
        assert_eq!(simulate_li_sequence(&bytes, 10), value as u64, "li materialized wrong bits for {value:#x}");
    }
}

#[test]
fn internal_assembler_rejects_unresolved_call_targets() {
    let lines = vec![".section .text".to_string(), ".global main".to_string(), "main:".to_string(), "call missing".to_string()];
    let err = assemble_elf_internal(&lines).unwrap_err();

    assert!(err.message.contains("unknown assembly label 'missing'"), "unexpected error: {}", err.message);
}

#[test]
fn internal_assembler_relaxes_out_of_range_register_conditional_branch() {
    for mnemonic in ["beq", "bne", "blt", "bge", "bltu", "bgeu"] {
        let mut lines = vec![
            ".section .text".to_string(),
            ".global entry".to_string(),
            "entry:".to_string(),
            "li a0, 0".to_string(),
            "li a1, 0".to_string(),
            format!("{} a0, a1, far_target", mnemonic),
        ];
        for _ in 0..1500 {
            lines.push("addi t0, t0, 0".to_string());
        }
        lines.push("far_target:".to_string());
        lines.push("ret".to_string());

        let plan = MachineLayoutPlan::build(&lines)
            .unwrap_or_else(|err| panic!("machine layout should relax {mnemonic}: {}", err.message));
        assert_eq!(plan.metrics.relaxed_branch_count, 1, "expected one relaxed branch for {mnemonic}");
        let elf = assemble_elf_internal(&lines)
            .unwrap_or_else(|err| panic!("internal assembler should relax {mnemonic}: {}", err.message));
        assert!(elf.starts_with(b"\x7fELF"), "expected ELF output for relaxed {mnemonic}");
    }
}

#[test]
fn machine_layout_plan_reports_branch_relaxation_metrics() {
    let mut lines = vec![
        ".section .text".to_string(),
        ".global entry".to_string(),
        "entry:".to_string(),
        "li a0, 0".to_string(),
        "beqz a0, far_target".to_string(),
    ];
    for _ in 0..1500 {
        lines.push("addi t0, t0, 0".to_string());
    }
    lines.push("far_target:".to_string());
    lines.push("ret".to_string());

    let plan = MachineLayoutPlan::build(&lines).expect("machine layout plan");
    assert_eq!(plan.metrics.relaxed_branch_count, 1);
    assert!(
        plan.metrics.max_cond_branch_abs_distance > 4096,
        "synthetic branch should exceed RV64 B-type range: {:?}",
        plan.metrics
    );
    assert_eq!(plan.metrics.text_size, plan.parsed.section_size(SectionKind::Text));
    assert_eq!(plan.metrics.covered_text_op_count, plan.metrics.executable_text_op_count);
    assert!(plan.metrics.executable_text_op_count > 1500, "synthetic text ops should be visible: {:?}", plan.metrics);
    assert_eq!(plan.metrics.layout_order_block_count, plan.metrics.machine_block_count);
    assert_eq!(plan.metrics.layout_order_text_size, plan.metrics.text_size);
    assert_eq!(plan.metrics.conditional_branch_block_count, 1);
    assert!(plan.metrics.machine_cfg_edge_count >= 2, "far branch CFG edges should be visible: {:?}", plan.metrics);
    assert_eq!(plan.metrics.machine_call_edge_count, 0);
    assert_eq!(plan.metrics.unreachable_machine_block_count, 0);
    assert!(plan.metrics.machine_block_count >= 2, "far branch should produce multiple machine blocks: {:?}", plan.metrics);
    assert!(
        plan.metrics.max_machine_block_size > 4096,
        "large fallthrough block should be visible in layout metrics: {:?}",
        plan.metrics
    );
}

#[test]
fn machine_layout_plan_builds_explicit_machine_blocks() {
    let lines = vec![
        ".section .text".to_string(),
        ".global entry".to_string(),
        "entry:".to_string(),
        "li a0, 0".to_string(),
        "beqz a0, done".to_string(),
        "li a0, 1".to_string(),
        "j done".to_string(),
        "done:".to_string(),
        "ret".to_string(),
    ];

    let plan = MachineLayoutPlan::build(&lines).expect("machine layout plan");
    let cfg = &plan.cfg;
    let blocks = &cfg.blocks;
    assert_eq!(blocks.len(), 3, "expected entry, fallthrough, and done blocks: {:?}", blocks);
    assert_eq!(blocks[0].label.as_deref(), Some("entry"));
    assert_eq!(blocks[0].terminator, MachineTerminator::ConditionalBranch { target: "done".to_string() });
    assert_eq!(blocks[1].terminator, MachineTerminator::Jump { target: "done".to_string() });
    assert_eq!(blocks[2].label.as_deref(), Some("done"));
    assert_eq!(blocks[2].terminator, MachineTerminator::Return);

    assert_eq!(cfg.blocks.len(), 3);
    assert_eq!(plan.order.block_order, vec![0, 1, 2]);
    assert_eq!(plan.order.placed_blocks.len(), 3);
    assert_eq!(
        plan.order.placed_blocks,
        vec![
            MachinePlacedBlock { block_index: 0, byte_start: 0, byte_size: cfg.blocks[0].byte_size },
            MachinePlacedBlock { block_index: 1, byte_start: cfg.blocks[0].byte_size, byte_size: cfg.blocks[1].byte_size },
            MachinePlacedBlock {
                block_index: 2,
                byte_start: cfg.blocks[0].byte_size + cfg.blocks[1].byte_size,
                byte_size: cfg.blocks[2].byte_size
            },
        ]
    );
    assert_eq!(plan.order.text_size, plan.metrics.text_size);
    assert_eq!(plan.metrics.executable_text_op_count, 5);
    assert_eq!(plan.metrics.covered_text_op_count, 5);
    assert_eq!(plan.metrics.layout_order_block_count, 3);
    assert_eq!(
        cfg.edges,
        vec![
            MachineCfgEdge { from: 0, to: 2, kind: MachineCfgEdgeKind::ConditionalTaken },
            MachineCfgEdge { from: 0, to: 1, kind: MachineCfgEdgeKind::ConditionalFallthrough },
            MachineCfgEdge { from: 1, to: 2, kind: MachineCfgEdgeKind::Jump },
        ]
    );
    assert_eq!(unreachable_machine_block_count(&plan.parsed, cfg), 0);
}

#[test]
fn machine_layout_plan_builds_register_conditional_branch_blocks() {
    let lines = vec![
        ".section .text".to_string(),
        ".global entry".to_string(),
        "entry:".to_string(),
        "li a0, 0".to_string(),
        "li a1, 0".to_string(),
        "bgeu a0, a1, done".to_string(),
        "li a0, 1".to_string(),
        "j done".to_string(),
        "done:".to_string(),
        "ret".to_string(),
    ];

    let plan = MachineLayoutPlan::build(&lines).expect("machine layout plan");
    let cfg = &plan.cfg;
    assert_eq!(cfg.blocks.len(), 3, "expected entry, fallthrough, and done blocks: {:?}", cfg.blocks);
    assert_eq!(cfg.blocks[0].label.as_deref(), Some("entry"));
    assert_eq!(cfg.blocks[0].terminator, MachineTerminator::ConditionalBranch { target: "done".to_string() });
    assert_eq!(
        cfg.edges,
        vec![
            MachineCfgEdge { from: 0, to: 2, kind: MachineCfgEdgeKind::ConditionalTaken },
            MachineCfgEdge { from: 0, to: 1, kind: MachineCfgEdgeKind::ConditionalFallthrough },
            MachineCfgEdge { from: 1, to: 2, kind: MachineCfgEdgeKind::Jump },
        ]
    );
}

#[test]
fn machine_cfg_tracks_call_edges_to_local_helpers() {
    let lines = vec![
        ".section .text".to_string(),
        ".global entry".to_string(),
        "entry:".to_string(),
        "call local_helper".to_string(),
        "ret".to_string(),
        "local_helper:".to_string(),
        "li a0, 0".to_string(),
        "ret".to_string(),
    ];

    let plan = MachineLayoutPlan::build(&lines).expect("machine layout plan");
    let cfg = &plan.cfg;
    assert_eq!(cfg.blocks.len(), 2, "expected entry and local helper blocks: {:?}", cfg.blocks);
    assert_eq!(cfg.blocks[0].label.as_deref(), Some("entry"));
    assert_eq!(cfg.blocks[1].label.as_deref(), Some("local_helper"));
    assert!(
        cfg.edges.contains(&MachineCfgEdge { from: 0, to: 1, kind: MachineCfgEdgeKind::Call }),
        "call edge to local helper should be explicit: {:?}",
        cfg.edges
    );
    assert_eq!(plan.metrics.machine_call_edge_count, 1);
    assert_eq!(unreachable_machine_block_count(&plan.parsed, cfg), 0);
}

#[test]
fn machine_reachability_uses_entry_label_not_every_global() {
    let lines = vec![
        ".section .text".to_string(),
        ".global entry".to_string(),
        "entry:".to_string(),
        "li a0, 0".to_string(),
        "ret".to_string(),
        ".global unused_export".to_string(),
        "unused_export:".to_string(),
        "li a0, 1".to_string(),
        "ret".to_string(),
    ];

    let plan = MachineLayoutPlan::build(&lines).expect("machine layout plan");
    assert_eq!(plan.parsed.entry_label.as_deref(), Some("entry"));
    assert_eq!(plan.cfg.blocks.len(), 2, "expected entry and unused export blocks: {:?}", plan.cfg.blocks);
    assert_eq!(plan.metrics.unreachable_machine_block_count, 1);
    assert_eq!(unreachable_machine_block_count(&plan.parsed, &plan.cfg), 1);
}

#[test]
fn machine_layout_order_rejects_missing_duplicate_or_unknown_blocks() {
    let lines = vec![
        ".section .text".to_string(),
        ".global entry".to_string(),
        "entry:".to_string(),
        "li a0, 0".to_string(),
        "beqz a0, done".to_string(),
        "li a0, 1".to_string(),
        "j done".to_string(),
        "done:".to_string(),
        "ret".to_string(),
    ];

    let plan = MachineLayoutPlan::build(&lines).expect("machine layout plan");
    assert!(validate_machine_layout_order(&plan.cfg, &[0, 1]).is_err());
    assert!(validate_machine_layout_order(&plan.cfg, &[0, 1, 1]).is_err());
    assert!(validate_machine_layout_order(&plan.cfg, &[0, 1, 3]).is_err());
    let permuted = build_machine_layout_order(&plan.cfg, vec![2, 0, 1]).expect("permuted layout order should be valid");
    assert_eq!(permuted.block_order, vec![2, 0, 1]);
    assert_eq!(permuted.placed_blocks[0].block_index, 2);
    assert_eq!(permuted.placed_blocks[0].byte_start, 0);
    assert_eq!(permuted.placed_blocks[1].byte_start, plan.cfg.blocks[2].byte_size);
    assert_eq!(permuted.text_size, plan.order.text_size);
}

#[test]
fn machine_layout_plan_rejects_branch_target_outside_text() {
    let lines = vec![
        ".section .text".to_string(),
        ".global entry".to_string(),
        "entry:".to_string(),
        "li a0, 0".to_string(),
        "beqz a0, data_label".to_string(),
        "ret".to_string(),
        ".section .rodata".to_string(),
        "data_label:".to_string(),
        ".word 1".to_string(),
    ];

    let err = match MachineLayoutPlan::build(&lines) {
        Ok(_) => panic!("branch targets outside text blocks should be rejected"),
        Err(err) => err,
    };
    assert!(err.message.contains("does not start a machine block"), "unexpected error for invalid CFG target: {}", err.message);
}
