use to_rocq::adapter::{AdapterAirContext, ImmInstruction};
use to_rocq::builder::RocqAirBuilder;
use to_rocq::commands::{
    branch_eq_report, print_circuit, sha256_builder, sha256_report, CircuitJob, CircuitType,
    PrintCircuitArgs,
};
use to_rocq::expr::{Entry, SymbolicExpression, SymbolicVariable};
use to_rocq::flat::FlatSymbolicExpression;
use to_rocq::render::{fits_at, write_nested_array, write_option};

fn var(i: usize) -> SymbolicExpression {
    SymbolicExpression::Variable(SymbolicVariable::new(Entry::Public, i))
}

fn konst(c: u64) -> SymbolicExpression {
    SymbolicExpression::Constant(c)
}

fn add(x: SymbolicExpression, y: SymbolicExpression) -> SymbolicExpression {
    SymbolicExpression::Add(Box::new(x), Box::new(y))
}

fn mul(x: SymbolicExpression, y: SymbolicExpression) -> SymbolicExpression {
    SymbolicExpression::Mul(Box::new(x), Box::new(y))
}

fn sub(x: SymbolicExpression, y: SymbolicExpression) -> SymbolicExpression {
    SymbolicExpression::Sub(Box::new(x), Box::new(y))
}

fn neg(x: SymbolicExpression) -> SymbolicExpression {
    SymbolicExpression::Neg(Box::new(x))
}

fn strs(lines: &[&str]) -> Vec<String> {
    lines.iter().map(|s| s.to_string()).collect()
}

fn variable_index(f: &FlatSymbolicExpression) -> usize {
    match f {
        FlatSymbolicExpression::Variable(v) => v.index,
        other => panic!("not a variable: {:?}", other),
    }
}

#[test]
fn flattening_joins_both_nested_sums() {
    let e = add(add(var(0), var(1)), add(var(2), var(3)));
    match FlatSymbolicExpression::from_symbolic_expression(&e) {
        FlatSymbolicExpression::Add(xs) => {
            let idx: Vec<usize> = xs.iter().map(variable_index).collect();
            assert_eq!(idx, vec![0, 1, 2, 3]);
        }
        other => panic!("unexpected {:?}", other),
    }
}

#[test]
fn flattening_joins_left_sum_only() {
    let e = add(add(var(0), var(1)), mul(var(2), var(3)));
    match FlatSymbolicExpression::from_symbolic_expression(&e) {
        FlatSymbolicExpression::Add(xs) => {
            assert_eq!(xs.len(), 3);
            assert_eq!(variable_index(&xs[0]), 0);
            assert_eq!(variable_index(&xs[1]), 1);
            assert!(matches!(&xs[2], FlatSymbolicExpression::Mul(ys) if ys.len() == 2));
        }
        other => panic!("unexpected {:?}", other),
    }
}

#[test]
fn flattening_joins_right_product_only() {
    let e = mul(konst(5), mul(var(1), mul(var(2), var(3))));
    match FlatSymbolicExpression::from_symbolic_expression(&e) {
        FlatSymbolicExpression::Mul(xs) => {
            assert_eq!(xs.len(), 4);
            assert!(matches!(xs[0], FlatSymbolicExpression::Constant(5)));
            assert_eq!(variable_index(&xs[3]), 3);
        }
        other => panic!("unexpected {:?}", other),
    }
}

#[test]
fn flattening_keeps_difference_and_negation() {
    let e = sub(add(var(0), var(1)), neg(add(var(2), var(3))));
    match FlatSymbolicExpression::from_symbolic_expression(&e) {
        FlatSymbolicExpression::Sub(x, y) => {
            assert!(matches!(&*x, FlatSymbolicExpression::Add(xs) if xs.len() == 2));
            assert!(matches!(&*y, FlatSymbolicExpression::Neg(z) if matches!(&**z, FlatSymbolicExpression::Add(_))));
        }
        other => panic!("unexpected {:?}", other),
    }
}

#[test]
fn sum_inside_product_stays_nested() {
    let e = mul(add(var(0), var(1)), var(2));
    let lines = e.to_rocq(0);
    assert_eq!(
        lines,
        strs(&["Mul:", "  Add:", "    Variable: 0", "    Variable: 1", "  Variable: 2"])
    );
}

#[test]
fn expression_lines_are_exact() {
    let e = sub(
        add(add(var(12), konst(0)), SymbolicExpression::IsFirstRow),
        neg(mul(SymbolicExpression::IsLastRow, SymbolicExpression::IsTransition)),
    );
    assert_eq!(
        e.to_rocq(2),
        strs(&[
            "  Sub:",
            "    Add:",
            "      Variable: 12",
            "      Constant: 0",
            "      IsFirstRow",
            "    Neg:",
            "      Mul:",
            "        IsLastRow",
            "        IsTransition",
        ])
    );
}

#[test]
fn large_constants_are_printed_in_decimal() {
    assert_eq!(konst(u64::MAX).to_rocq(0), strs(&["Constant: 18446744073709551615"]));
    assert_eq!(konst(10).to_rocq(1), strs(&[" Constant: 10"]));
    assert_eq!(var(1234567).to_rocq(0), strs(&["Variable: 1234567"]));
}

#[test]
fn rendering_deeper_prefixes_blanks() {
    let e = add(mul(var(3), var(4)), neg(konst(7)));
    let at0 = e.to_rocq(0);
    let at3 = e.to_rocq(3);
    assert_eq!(at0.len(), at3.len());
    for (a, b) in at0.iter().zip(at3.iter()) {
        assert_eq!(format!("   {}", a), *b);
    }
}

#[test]
fn new_builder_numbers_cells_row_by_row() {
    let b = RocqAirBuilder::new(3, 2);
    let m = b.main();
    assert_eq!(m.width, 3);
    let idx: Vec<usize> = m.values.iter().map(|v| v.index).collect();
    assert_eq!(idx, vec![0, 1, 2, 3, 4, 5]);
    assert!(m.values.iter().all(|v| v.entry == Entry::Public));
    assert_eq!(b.to_rocq(0), strs(&["Trace 🐾"]));
}

#[test]
fn empty_builder_has_empty_main() {
    let b = RocqAirBuilder::new(0, 0);
    assert_eq!(b.main().values.len(), 0);
    let b = RocqAirBuilder::new(4, 0);
    assert_eq!(b.main().values.len(), 0);
    assert_eq!(b.main().width, 4);
}

#[test]
fn row_selectors() {
    let b = RocqAirBuilder::new(1, 1);
    assert!(matches!(b.is_first_row(), SymbolicExpression::IsFirstRow));
    assert!(matches!(b.is_last_row(), SymbolicExpression::IsLastRow));
    assert!(matches!(b.is_transition_window(2), SymbolicExpression::IsTransition));
    assert!(matches!(b.is_transition_window(7), SymbolicExpression::IsTransition));
}

#[test]
fn trace_renders_every_kind_of_record_in_order() {
    let mut b = RocqAirBuilder::new(2, 2);
    b.assert_zero(add(add(var(0), var(1)), var(2)));
    b.log_in_constraints("hello world");
    b.push_interaction(7, vec![var(1), mul(var(2), konst(3))], konst(1), 65536);
    b.push_interaction(65535, vec![], var(0), 0);
    assert_eq!(
        b.to_rocq(0),
        strs(&[
            "Trace 🐾",
            "  AssertZero:",
            "    Add:",
            "      Variable: 0",
            "      Variable: 1",
            "      Variable: 2",
            "  Message 🦜",
            "    hello world",
            "  Interaction:",
            "    message:",
            "      Variable: 1",
            "      Mul:",
            "        Variable: 2",
            "        Constant: 3",
            "    count:",
            "      Constant: 1",
            "    bus_index:",
            "      7",
            "    count_weight:",
            "      65536",
            "  Interaction:",
            "    message:",
            "    count:",
            "      Variable: 0",
            "    bus_index:",
            "      65535",
            "    count_weight:",
            "      0",
        ])
    );
}

#[test]
fn recording_appends_lines_only() {
    let mut b = RocqAirBuilder::new(0, 0);
    b.assert_zero(var(5));
    let before = b.to_rocq(4);
    b.log_in_constraints("");
    let after = b.to_rocq(4);
    assert_eq!(&after[..before.len()], &before[..]);
    assert_eq!(&after[before.len()..], &strs(&["      Message 🦜", "        "])[..]);
}

#[test]
fn message_with_newline_is_kept_whole() {
    let mut b = RocqAirBuilder::new(0, 0);
    b.log_in_constraints("a\nb");
    let lines = b.to_rocq(0);
    assert_eq!(lines, strs(&["Trace 🐾", "  Message 🦜", "    a\nb"]));
}

#[test]
fn options_and_arrays() {
    let mut out = Vec::new();
    write_option(&Some(var(3)), 1, &mut out);
    write_option(&None, 0, &mut out);
    write_nested_array(&vec![vec![var(0)], vec![]], 2, &mut out);
    assert_eq!(
        out,
        strs(&[
            " Some:",
            "   Variable: 3",
            "None",
            "  Array:",
            "    Array:",
            "      Variable: 0",
            "    Array:",
        ])
    );
}

#[test]
fn fitting_checks_depth_against_indentation() {
    assert!(fits_at(&var(0), usize::MAX));
    assert!(!fits_at(&neg(var(0)), usize::MAX));
    assert!(fits_at(&neg(var(0)), usize::MAX - 2));
    assert!(!fits_at(&neg(neg(var(0))), usize::MAX - 3));
    let mut b = RocqAirBuilder::new(0, 0);
    assert!(b.fits_at(usize::MAX));
    b.log_in_constraints("m");
    assert!(b.fits_at(usize::MAX - 4));
    assert!(!b.fits_at(usize::MAX - 3));
    let mut b = RocqAirBuilder::new(0, 0);
    b.assert_zero(neg(var(1)));
    assert!(b.fits_at(usize::MAX - 6));
    assert!(!b.fits_at(usize::MAX - 5));
}

fn small_context() -> AdapterAirContext {
    AdapterAirContext {
        to_pc: Some(add(var(16), var(9))),
        reads: vec![vec![var(0), var(1)], vec![var(4)]],
        writes: vec![],
        instruction: ImmInstruction { is_valid: var(10), opcode: konst(12), immediate: var(9) },
    }
}

#[test]
fn adapter_context_lines() {
    let lines = small_context().to_rocq(2);
    assert_eq!(
        lines,
        strs(&[
            "  AdapterAirContext:",
            "    to_pc:",
            "      Some:",
            "        Add:",
            "          Variable: 16",
            "          Variable: 9",
            "    reads:",
            "      Array:",
            "        Array:",
            "          Variable: 0",
            "          Variable: 1",
            "        Array:",
            "          Variable: 4",
            "    writes:",
            "      Array:",
            "    instruction:",
            "      ImmInstruction:",
            "        is_valid:",
            "          Variable: 10",
            "        opcode:",
            "          Constant: 12",
            "        immediate:",
            "          Variable: 9",
        ])
    );
}

#[test]
fn print_circuit_asks_for_the_branch_eq_core() {
    let job = print_circuit(PrintCircuitArgs { circuit_type: CircuitType::BranchEq });
    match job {
        CircuitJob::BranchEq(j) => {
            assert_eq!(j.num_limbs, 4);
            assert_eq!(j.offset, 12);
            assert_eq!(j.pc_step, 23);
            let idx: Vec<usize> = j.local.iter().map(|v| v.index).collect();
            assert_eq!(idx, (0..16).collect::<Vec<usize>>());
            assert!(j.local.iter().all(|v| v.entry == Entry::Public));
            assert_eq!(j.from_pc, SymbolicVariable::new(Entry::Public, 16));
            assert_eq!(j.builder.main().width, 0);
            assert_eq!(j.builder.to_rocq(0), strs(&["Trace 🐾"]));
        }
    }
}

#[test]
fn branch_eq_report_lines() {
    let mut b = RocqAirBuilder::new(0, 0);
    b.assert_zero(mul(var(11), var(12)));
    let lines = branch_eq_report(&b, &small_context()).expect("fits");
    assert_eq!(lines[0], "Trace 🐾");
    assert_eq!(lines[1], "  AssertZero:");
    assert_eq!(lines[2], "    Mul:");
    assert_eq!(lines[5], "Result 🛍️");
    assert_eq!(lines[6], "  AdapterAirContext:");
    assert_eq!(lines.len(), 6 + small_context().to_rocq(2).len());
}

#[test]
fn sha256_builder_and_report() {
    let b = sha256_builder(5, 8);
    assert_eq!(b.main().width, 8);
    assert_eq!(b.main().values.len(), 16);
    let b = sha256_builder(9, 8);
    assert_eq!(b.main().width, 9);
    let mut b = sha256_builder(1, 1);
    b.assert_zero(var(1));
    assert_eq!(
        sha256_report(&b).expect("fits"),
        strs(&["Trace 🐾", "  AssertZero:", "    Variable: 1", "Result 🛍️", "  tt"])
    );
}

#[test]
fn regrouped_sums_and_products_print_the_same() {
    let l = add(add(var(1), mul(var(2), var(3))), konst(4));
    let r = add(var(1), add(mul(var(2), var(3)), konst(4)));
    assert_eq!(l.to_rocq(2), r.to_rocq(2));
    let l = mul(mul(var(1), var(2)), sub(var(3), var(4)));
    let r = mul(var(1), mul(var(2), sub(var(3), var(4))));
    assert_eq!(l.to_rocq(0), r.to_rocq(0));
    assert_ne!(l.to_rocq(0), add(var(1), var(2)).to_rocq(0));
}

#[test]
fn entries_are_not_printed_but_indices_are() {
    let a = SymbolicExpression::Variable(SymbolicVariable::new(Entry::Main { part_index: 0, offset: 1 }, 7));
    let b = SymbolicExpression::Variable(SymbolicVariable::new(Entry::Challenge, 7));
    assert_eq!(a.to_rocq(0), b.to_rocq(0));
    assert_ne!(var(7).to_rocq(0), var(70).to_rocq(0));
    assert_ne!(konst(1).to_rocq(0), konst(11).to_rocq(0));
}

#[test]
fn fresh_builder_of_any_size_prints_one_line() {
    for (w, h) in [(0, 0), (5, 0), (0, 5), (3, 4)] {
        let b = RocqAirBuilder::new(w, h);
        assert_eq!(b.to_rocq(0), strs(&["Trace 🐾"]));
        assert_eq!(b.to_rocq(5), strs(&["     Trace 🐾"]));
    }
}

#[test]
fn any_run_of_recordings_appends_in_order_and_keeps_main() {
    let mut b = RocqAirBuilder::new(2, 3);
    let main_before: Vec<usize> = b.main().values.iter().map(|v| v.index).collect();
    b.log_in_constraints("first");
    b.assert_zero(var(4));
    b.push_interaction(3, vec![var(0)], konst(1), 2);
    b.log_in_constraints("last");
    let main_after: Vec<usize> = b.main().values.iter().map(|v| v.index).collect();
    assert_eq!(main_before, main_after);
    assert_eq!(b.main().width, 2);
    let lines = b.to_rocq(0);
    assert_eq!(lines[1], "  Message 🦜");
    assert_eq!(lines[2], "    first");
    assert_eq!(lines[3], "  AssertZero:");
    assert_eq!(lines[5], "  Interaction:");
    assert_eq!(lines[lines.len() - 1], "    last");
    assert_eq!(b.to_rocq(0), lines);
}
