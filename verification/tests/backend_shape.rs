use cellscript::codegen::analyze_backend_shape;

#[test]
fn backend_shape_of_a_small_function() {
    let assembly = ".section .text\n.global entry\nentry:\n    li a0, 0\n    beqz a0, done\n    li a0, 1\ndone:\n    ret\n";
    let metrics = analyze_backend_shape(assembly).expect("well-formed assembly");
    assert_eq!(metrics.text_size, 16);
    assert_eq!(metrics.rodata_size, 0);
    assert_eq!(metrics.data_size, 0);
    assert_eq!(metrics.executable_text_op_count, 4);
    assert_eq!(metrics.covered_text_op_count, 4);
    assert_eq!(metrics.machine_block_count, 3);
    assert_eq!(metrics.conditional_branch_block_count, 1);
    assert_eq!(metrics.relaxed_branch_count, 0);
    assert_eq!(metrics.machine_call_edge_count, 0);
    assert_eq!(metrics.unreachable_machine_block_count, 0);
    assert_eq!(metrics.layout_order_block_count, 3);
    assert_eq!(metrics.layout_order_text_size, 16);
    assert_eq!(metrics.max_machine_block_size, 8);
}

#[test]
fn backend_shape_reports_parse_and_label_errors() {
    let bad_section = analyze_backend_shape(".section .bogus\n").unwrap_err();
    assert_eq!(bad_section.message, "unsupported assembly section '.bogus'");
    let duplicate = analyze_backend_shape(".section .text\nentry:\n    ret\nentry:\n    ret\n").unwrap_err();
    assert_eq!(duplicate.message, "duplicate assembly label 'entry'");
    let unknown = analyze_backend_shape(".section .text\nentry:\n    j nowhere\n").unwrap_err();
    assert_eq!(unknown.message, "unknown assembly label 'nowhere'");
}
