use circuit::codegen::targets::ir::{Address, Constant, DataItem, Opcode, OpcodeKind, Sections, Value as IrValue};
use circuit::optimiser::ir::CodeBlockOptimser;
use circuit::optimiser::truth_table::{BitEndpoint, BitString, TreeTable, TruthTable, Value};
use std::rc::Rc;
use circuit::optimiser::Optimiser;

#[test]
fn test_bitstring_serde() {
    let value = 987251230u128;
    let bs = BitString::from_value(value, 16);
    assert_eq!(bs.value(), value);
}

#[test]
fn bitstring_keeps_low_digits_only() {
    // 4^3 = 64, so only 300 % 64 = 44 survives three digits.
    let bs = BitString::from_value(300, 3);
    assert_eq!(bs.values(), &[Value::Z, Value::E, Value::H]);
    assert_eq!(bs.value(), 44);
}

#[test]
fn bitstring_reads_first_value_as_least_significant() {
    let bs = BitString::from_slice(&[Value::L, Value::E, Value::Z]);
    assert_eq!(bs.value(), 1 + 3 * 4);
}

#[test]
fn value_combine_ors_codes() {
    assert_eq!(Value::L.combine(&Value::H), Value::E);
    assert_eq!(Value::Z.combine(&Value::H), Value::H);
    assert_eq!(Value::L.combine(&Value::L), Value::L);
}

fn op(destination: usize, opcode: OpcodeKind<u64>) -> Opcode<u64> {
    Opcode { destination, opcode }
}

fn sample_program() -> Sections<u64> {
    let mut s: Sections<u64> = Sections::new();
    s.new_data().push(DataItem::Address(3, 0));
    s.new_rodata().extend(&[5, 6]);
    s.new_rodata().extend(&[5, 6]);
    let text = s.new_text();
    text.push(op(0, OpcodeKind::Load(Constant::Value(7))));
    text.push(op(1, OpcodeKind::Load(Constant::Value(7))));
    text.push(op(
        2,
        OpcodeKind::Offset {
            base: Address::Immediate((2, 0)),
            item_size: 8,
            item_count: IrValue::Immediate(Constant::Value(1)),
        },
    ));
    text.push(op(3, OpcodeKind::Read(Address::Register(2))));
    text.push(op(4, OpcodeKind::CheckInputs(1, 1, 2)));
    s.label("_main", (3, 0));
    s
}

#[test]
fn code_block_optimiser_folds_and_reuses() {
    let s = sample_program();
    let out = CodeBlockOptimser::optimise(&s.text_blocks()[0]);
    assert_eq!(
        out,
        vec![
            op(0, OpcodeKind::Load(Constant::Value(7))),
            op(1, OpcodeKind::Read(Address::Immediate((2, 8)))),
            op(2, OpcodeKind::CheckInputs(0, 1, 2)),
        ]
    );
}

#[test]
fn code_block_optimiser_drops_offsets_by_zero() {
    let mut s: Sections<u64> = Sections::new();
    let text = s.new_text();
    text.push(op(0, OpcodeKind::LoadResv));
    text.push(op(
        1,
        OpcodeKind::Offset {
            base: Address::Register(0),
            item_size: 8,
            item_count: IrValue::Immediate(Constant::Value(0)),
        },
    ));
    text.push(op(2, OpcodeKind::Read(Address::Register(1))));
    let out = CodeBlockOptimser::optimise(&s.text_blocks()[0]);
    assert_eq!(out, vec![op(0, OpcodeKind::LoadResv), op(1, OpcodeKind::Read(Address::Register(0)))]);
}

#[test]
fn ir_optimiser_merges_blocks_and_moves_references() {
    let out = Optimiser::optimise_ir(sample_program());
    assert_eq!(out.len(), 3);
    assert_eq!(out.data_blocks()[0].items(), &[DataItem::Address(2, 0)]);
    assert_eq!(out.rodata_blocks().len(), 1);
    assert_eq!(out.rodata_blocks()[0].items(), &[5, 6]);
    assert_eq!(out.text_blocks().len(), 1);
    assert_eq!(out.text_blocks()[0].id(), 2);
    assert_eq!(
        out.text_blocks()[0].items(),
        &[
            op(0, OpcodeKind::Load(Constant::Value(7))),
            op(1, OpcodeKind::Read(Address::Immediate((1, 8)))),
            op(2, OpcodeKind::CheckInputs(0, 1, 2)),
        ]
    );
    assert_eq!(out.get_label("_main"), Some((2, 0)));
}

fn pin(pin_id: usize) -> BitEndpoint {
    BitEndpoint::Pin { pin_id, bit: 0 }
}

#[test]
fn identity_table_passes_its_input_through() {
    let t = TreeTable::identity(pin(3));
    for v in [Value::Z, Value::L, Value::H, Value::E] {
        assert_eq!(t.query_map(&[(pin(3), v)]), v);
    }
    assert_eq!(t.row_count(), 4);
}

#[test]
fn empty_table_floats_everywhere() {
    let t = TreeTable::empty(vec![(pin(0), 1), (pin(1), 0)]);
    assert_eq!(t.row_count(), 16);
    assert!(t.rows().iter().all(|v| *v == Value::Z));
}

#[test]
fn combined_tables_merge_their_outputs() {
    let tts = vec![Rc::new(TreeTable::identity(pin(0))), Rc::new(TreeTable::identity(pin(1)))];
    let t = TreeTable::combine(&tts);
    assert_eq!(t.inputs(), &[(pin(0), 0), (pin(1), 1)]);
    assert_eq!(t.row_count(), 16);
    // row 1: first input low, second floating
    assert_eq!(t.rows()[1], Value::L);
    // row 6: first input high, second low, which conflict
    assert_eq!(t.rows()[6], Value::E);
    assert_eq!(t.query_map(&[(pin(0), Value::Z), (pin(1), Value::H)]), Value::H);
    assert_eq!(t.get_combined_value(&tts, 9), Value::E);
}

#[test]
fn named_input_row_reads_each_position() {
    let inputs = vec![(pin(0), 1), (pin(1), 0)];
    let row = TruthTable::get_named_input_row(&inputs, 6);
    assert_eq!(row, vec![(pin(0), Value::L), (pin(1), Value::H)]);
}

fn two_wire_table() -> TruthTable {
    let tts = vec![
        (pin(5), Rc::new(TreeTable::identity(pin(1)))),
        (pin(4), Rc::new(TreeTable::identity(pin(0)))),
    ];
    TruthTable::from_tree_tables(&tts)
}

#[test]
fn tree_tables_merge_into_a_sorted_truth_table() {
    let t = two_wire_table();
    assert_eq!(t.inputs(), &[(pin(0), 0), (pin(1), 1)]);
    assert_eq!(t.outputs(), &[(pin(4), 0), (pin(5), 1)]);
    assert_eq!(t.row_count(), 16);
    assert_eq!(t.iter_rows()[6].values(), &[Value::H, Value::L]);
    assert_eq!(t.iter_rows()[0].values(), &[Value::Z, Value::Z]);
    assert_eq!(t.iter_rows()[15].values(), &[Value::E, Value::E]);
}

#[test]
fn tree_table_of_one_output_seen_from_a_user() {
    let t = two_wire_table();
    let tree = t.get_tree_table(BitEndpoint::Dependency { dependency_id: 7, pin_id: 5, bit: 0 });
    assert_eq!(
        tree.inputs(),
        &[
            (BitEndpoint::Dependency { dependency_id: 7, pin_id: 0, bit: 0 }, 0),
            (BitEndpoint::Dependency { dependency_id: 7, pin_id: 1, bit: 0 }, 1),
        ]
    );
    assert_eq!(tree.rows().len(), 16);
    assert_eq!(tree.rows()[6], Value::L);
    assert_eq!(tree.rows()[9], Value::H);
}
