use cellscript::codegen::runtime::RuntimeFailure;
use cellscript::codegen::{CodeGenerator, CodegenOptions};
use cellscript::ir::{IrConst, IrOperand, IrType, IrVar};

fn generator() -> CodeGenerator {
    CodeGenerator::new(CodegenOptions::default())
}

fn vec_var(id: usize, name: &str, ty: &str) -> IrVar {
    IrVar { id, name: name.to_string(), ty: IrType::Named(ty.to_string()) }
}

#[test]
fn memcmp_helper_compares_byte_by_byte() {
    let mut g = generator();
    g.emit_runtime_memcmp_fixed();
    assert_eq!(
        g.assembly,
        vec![
            ".global __cellscript_memcmp_fixed",
            ".type __cellscript_memcmp_fixed, @function",
            "__cellscript_memcmp_fixed:",
            "    # cellscript abi: fixed-byte helper compares a0/a1 for a2 bytes; returns a0=0 when equal",
            "    beqz a2, .L__cellscript_memcmp_fixed_equal",
            ".L__cellscript_memcmp_fixed_loop:",
            "    lbu t0, 0(a0)",
            "    lbu t1, 0(a1)",
            "    sub t2, t0, t1",
            "    bnez t2, .L__cellscript_memcmp_fixed_mismatch",
            "    addi a0, a0, 1",
            "    addi a1, a1, 1",
            "    addi a2, a2, -1",
            "    bnez a2, .L__cellscript_memcmp_fixed_loop",
            ".L__cellscript_memcmp_fixed_equal:",
            "    li a0, 0",
            "    ret",
            ".L__cellscript_memcmp_fixed_mismatch:",
            "    li a0, 1",
            "    ret",
        ]
    );
}

#[test]
fn memzero_helper_stops_at_first_nonzero_byte() {
    let mut g = generator();
    g.emit_runtime_memzero_fixed();
    assert_eq!(g.assembly.len(), 17);
    assert_eq!(g.assembly[2], "__cellscript_memzero_fixed:");
    assert_eq!(g.assembly[6], "    lbu t0, 0(a0)");
    assert_eq!(g.assembly[7], "    bnez t0, .L__cellscript_memzero_fixed_mismatch");
    assert_eq!(g.assembly[10], "    bnez a1, .L__cellscript_memzero_fixed_loop");
    assert_eq!(g.assembly[16], "    ret");
}

#[test]
fn size_guards_return_zero_on_success() {
    let mut g = generator();
    g.emit_runtime_size_guards();
    assert_eq!(
        g.assembly,
        vec![
            ".global __cellscript_require_min_size",
            ".type __cellscript_require_min_size, @function",
            "__cellscript_require_min_size:",
            "    # cellscript abi: returns a0=0 when actual size a0 is at least required size a1",
            "    sltu a0, a0, a1",
            "    ret",
            ".global __cellscript_require_exact_size",
            ".type __cellscript_require_exact_size, @function",
            "__cellscript_require_exact_size:",
            "    # cellscript abi: returns a0=0 when actual size a0 equals expected size a1",
            "    sub a0, a0, a1",
            "    ret",
        ]
    );
}

#[test]
fn runtime_failures_report_code_and_name() {
    let failure = RuntimeFailure { code: 7, name: "bounds-check-failed".to_string() };
    let mut g = generator();
    g.emit_runtime_fail_ret(&failure);
    g.emit_runtime_status_fail_ret(&failure);
    assert_eq!(
        g.assembly,
        vec![
            "    # cellscript runtime error 7 bounds-check-failed",
            "    li a0, 7",
            "    ret",
            "    # cellscript runtime error 7 bounds-check-failed",
            "    li a0, 0",
            "    li a1, 7",
            "    ret",
        ]
    );
}

#[test]
fn molecule_offset_guard_ends_with_the_bounds_error() {
    let failure = RuntimeFailure { code: 9, name: "bounds".to_string() };
    let mut g = generator();
    g.emit_runtime_molecule_table_offset_guard(&failure);
    let lines = &g.assembly;
    assert_eq!(lines[2], "__cellscript_validate_molecule_table_offsets:");
    assert_eq!(lines[4], "    addi t0, a0, 4");
    assert_eq!(lines[8], ".L__cellscript_molecule_offsets_loop:");
    assert_eq!(lines[9], "    beqz t1, .L__cellscript_molecule_offsets_ok");
    assert!(lines.contains(&"    slli a4, a4, 24".to_string()));
    let n = lines.len();
    assert_eq!(lines[n - 4], ".L__cellscript_molecule_offsets_fail:");
    assert_eq!(lines[n - 3], "    # cellscript runtime error 9 bounds");
    assert_eq!(lines[n - 2], "    li a0, 9");
    assert_eq!(lines[n - 1], "    ret");
}

#[test]
fn blake2b_rotr_rotates_through_t1() {
    let mut g = generator();
    g.emit_blake2b_rotr("t0", 24);
    assert_eq!(g.assembly, vec!["    srli t1, t0, 24", "    slli t0, t0, 40", "    or t0, t0, t1"]);
}

#[test]
fn blake2b_input_word_is_assembled_little_endian() {
    let mut g = generator();
    g.emit_blake2b_load_input_word(1, 200);
    assert_eq!(g.assembly[0], "    li t0, 0");
    assert_eq!(g.assembly[1], "    lbu t1, 8(a0)");
    assert_eq!(g.assembly[2], "    or t0, t0, t1");
    assert_eq!(g.assembly[3], "    lbu t1, 9(a0)");
    assert_eq!(g.assembly[4], "    slli t1, t1, 8");
    assert_eq!(g.assembly[g.assembly.len() - 3], "    slli t1, t1, 56");
    assert_eq!(g.assembly[g.assembly.len() - 1], "    sd t0, 200(sp)");
    assert_eq!(g.assembly.len(), 1 + 8 * 3 - 1 + 1);
}

#[test]
fn blake2b_constants_are_pooled_once() {
    let mut g = generator();
    g.emit_blake2b_store_const(0x0102030405060708, 16);
    g.emit_blake2b_store_const(0x0102030405060708, 24);
    assert_eq!(g.const_data_entries.len(), 1);
    assert_eq!(g.const_data_entries[0].1, vec![8, 7, 6, 5, 4, 3, 2, 1]);
    assert_eq!(
        g.assembly,
        vec![
            "    la t0, __cellscript_const_data_0",
            "    ld t0, 0(t0)",
            "    sd t0, 16(sp)",
            "    la t0, __cellscript_const_data_0",
            "    ld t0, 0(t0)",
            "    sd t0, 24(sp)",
        ]
    );
}

#[test]
fn blake2b_g_mixes_four_words() {
    let mut g = generator();
    g.emit_blake2b_g(64, 192, 0, 4, 8, 12, 1, 2);
    assert_eq!(g.assembly[0], "    ld t0, 64(sp)");
    assert_eq!(g.assembly[1], "    ld t1, 96(sp)");
    assert_eq!(g.assembly[2], "    add t0, t0, t1");
    assert_eq!(g.assembly[3], "    ld t1, 200(sp)");
    assert!(g.assembly.contains(&"    ld t1, 208(sp)".to_string()));
    assert!(g.assembly.contains(&"    srli t1, t0, 63".to_string()));
    assert_eq!(g.assembly.len(), 2 * (6 + 7 + 4 + 7));
}

#[test]
fn blake2b_hash_helper_disabled_reports_failure() {
    let failure = RuntimeFailure { code: 5, name: "syscall-failed".to_string() };
    let mut g = generator();
    g.emit_runtime_blake2b_hash32(false, &failure);
    assert_eq!(
        g.assembly,
        vec![
            ".global __ckb_hash_blake2b",
            ".type __ckb_hash_blake2b, @function",
            "__ckb_hash_blake2b:",
            "    # cellscript abi: CKB Blake2b-256 helper; a0=input[32], a1=output[32], returns a0=0",
            "    # cellscript runtime error 5 syscall-failed",
            "    li a0, 5",
            "    ret",
        ]
    );
    assert!(g.const_data_entries.is_empty());
}

#[test]
fn blake2b_hash_helper_pools_state_and_vector() {
    let failure = RuntimeFailure { code: 5, name: "syscall-failed".to_string() };
    let mut g = generator();
    g.emit_runtime_blake2b_hash32(true, &failure);
    // Eight initial state words, eight vector words; five of them coincide.
    assert_eq!(g.const_data_entries.len(), 11);
    let first = u64::from_le_bytes(g.const_data_entries[0].1.clone().try_into().unwrap());
    assert_eq!(first, 0x6a09e667f3bcc908 ^ 0x01010020);
    let personal = u64::from_le_bytes(g.const_data_entries[6].1.clone().try_into().unwrap());
    assert_eq!(personal, 0x1f83d9abfb41bd6b ^ u64::from_le_bytes(*b"ckb-defa"));
    let lines = &g.assembly;
    assert_eq!(lines[4], "    addi sp, sp, -320");
    assert!(lines.contains(&"    xori t0, t0, 32".to_string()));
    assert!(lines.contains(&"    xori t0, t0, -1".to_string()));
    assert!(lines.contains(&"    sd t0, 24(a1)".to_string()));
    let n = lines.len();
    assert_eq!(lines[n - 3], "    addi sp, sp, 320");
    assert_eq!(lines[n - 2], "    li a0, 0");
    assert_eq!(lines[n - 1], "    ret");
}

#[test]
fn stack_collection_capacity_counts_whole_elements() {
    let mut g = generator();
    g.stack_collection_vars.insert(3);
    let items = IrOperand::Var(vec_var(3, "items", "Vec<u64>"));
    let dest = IrVar { id: 6, name: "cap".to_string(), ty: IrType::U64 };
    let wrong = IrVar { id: 6, name: "cap".to_string(), ty: IrType::U32 };
    assert!(!g.emit_stack_collection_capacity(&wrong, &items));
    assert!(!g.emit_stack_collection_capacity(&dest, &IrOperand::Const(IrConst::U64(1))));
    assert!(g.assembly.is_empty());
    assert!(g.emit_stack_collection_capacity(&dest, &items));
    assert_eq!(
        g.assembly,
        vec!["    # cellscript abi: stack collection capacity element_size=8", "    li t0, 32", "    sd t0, 48(sp)",]
    );
}

#[test]
fn stack_collection_reverse_swaps_from_both_ends() {
    let mut g = generator();
    g.frame_size = 2048;
    g.stack_collection_vars.insert(2);
    let bytes = IrOperand::Var(vec_var(2, "bytes", "Vec<u16>"));
    let unknown = IrOperand::Var(vec_var(2, "bytes", "Vec<Unknown>"));
    assert!(!g.emit_stack_collection_reverse(&unknown));
    assert!(g.assembly.is_empty());
    assert!(g.emit_stack_collection_reverse(&bytes));
    assert_eq!(
        g.assembly,
        vec![
            "    # cellscript abi: stack collection reverse element_size=2",
            "    ld t4, 16(sp)",
            "    ld t0, -8(t4)",
            "    li t1, 2",
            "    sltu t2, t0, t1",
            "    bnez t2, .Lstack_collection_reverse_done_0",
            "    sd zero, 864(sp)",
            "    addi t0, t0, -1",
            "    sd t0, 872(sp)",
            ".Lstack_collection_reverse_loop_1:",
            "    ld t0, 864(sp)",
            "    ld t1, 872(sp)",
            "    sltu t2, t0, t1",
            "    beqz t2, .Lstack_collection_reverse_done_0",
            "    ld t4, 16(sp)",
            "    li t3, 2",
            "    mul t5, t0, t3",
            "    add t5, t4, t5",
            "    mul t6, t1, t3",
            "    add t6, t4, t6",
            "    # cellscript abi: stack collection reverse swap element_size=2",
            "    lbu t0, 0(t5)",
            "    lbu t1, 0(t6)",
            "    sb t1, 0(t5)",
            "    sb t0, 0(t6)",
            "    lbu t0, 1(t5)",
            "    lbu t1, 1(t6)",
            "    sb t1, 1(t5)",
            "    sb t0, 1(t6)",
            "    ld t0, 864(sp)",
            "    addi t0, t0, 1",
            "    sd t0, 864(sp)",
            "    ld t1, 872(sp)",
            "    addi t1, t1, -1",
            "    sd t1, 872(sp)",
            "    j .Lstack_collection_reverse_loop_1",
            ".Lstack_collection_reverse_done_0:",
        ]
    );
}

#[test]
fn collection_new_takes_the_next_slot() {
    let mut g = generator();
    g.collection_region_start = 64;
    let first = vec_var(1, "a", "Vec<u8>");
    let second = vec_var(2, "b", "Vec<u8>");
    g.emit_collection_new(&first, "Vec<u8>", None).unwrap();
    g.emit_collection_new(&second, "Vec<u8>", Some(&IrOperand::Const(IrConst::U64(4)))).unwrap();
    assert_eq!(g.next_collection_slot, 2);
    assert!(g.stack_collection_vars.contains(&1) && g.stack_collection_vars.contains(&2));
    assert!(g.empty_molecule_vector_vars.contains(&2));
    assert_eq!(
        g.assembly,
        vec![
            "    # collection new Vec<u8>",
            "    # cellscript abi: stack collection buffer_offset=72 max_size=256",
            "    sd zero, 64(sp)",
            "    addi t0, sp, 72",
            "    sd t0, 8(sp)",
            "    # collection new Vec<u8>",
            "    # cellscript abi: stack collection buffer_offset=336 max_size=256",
            "    # cellscript abi: stack collection with_capacity uses fixed backing buffer",
            "    #   capacity: 4",
            "    sd zero, 328(sp)",
            "    addi t0, sp, 336",
            "    sd t0, 16(sp)",
        ]
    );
}
