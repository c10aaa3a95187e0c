use std::collections::VecDeque;

use darwin_lib::{AddressMode, Instruction, Modifier, OpCode, VirtualMachine};

fn ins(
    op_code: OpCode,
    modifier: Modifier,
    a_reg: isize,
    a_mode: AddressMode,
    b_reg: isize,
    b_mode: AddressMode,
) -> Instruction {
    Instruction::new(op_code, modifier, a_reg, a_mode, b_reg, b_mode)
}

fn test_seq(program: Vec<Instruction>, should_skip: bool) {
    let mut vm = VirtualMachine::new_simple(20, program);

    vm.cycle().unwrap();

    if should_skip {
        assert_eq!(
            vm.get_users_pcs(),
            &[VecDeque::from(vec![2])],
            "Did not skip when it should have"
        )
    } else {
        assert_eq!(
            vm.get_users_pcs(),
            &[VecDeque::from(vec![1])],
            "Skipped when it shouldn't have"
        )
    }
}

#[test]
#[should_panic]
fn control_flow_skip_invalid_seq() {
    // None is not a valid modifier
    test_seq(
        vec![
            ins(OpCode::SEQ, Modifier::Unset, 0, AddressMode::Direct, 0, AddressMode::Direct),
        ],
        false,
    );
}

#[test]
fn control_flow_skip_seq() {
    // Modifier: A
    test_seq(
        vec![
            ins(OpCode::SEQ, Modifier::A, 1, AddressMode::Direct, 2, AddressMode::Direct),
            ins(OpCode::DAT, Modifier::Unset, 0, AddressMode::Direct, 1, AddressMode::Direct),
            ins(OpCode::DAT, Modifier::Unset, 0, AddressMode::Direct, 0, AddressMode::Direct),
        ],
        true,
    );
    test_seq(
        vec![
            ins(OpCode::SEQ, Modifier::A, 1, AddressMode::Direct, 2, AddressMode::Direct),
            ins(OpCode::DAT, Modifier::Unset, 1, AddressMode::Direct, 0, AddressMode::Direct),
            ins(OpCode::DAT, Modifier::Unset, 1, AddressMode::Direct, 1, AddressMode::Direct),
        ],
        true,
    );
    test_seq(
        vec![
            ins(OpCode::SEQ, Modifier::A, 1, AddressMode::Direct, 2, AddressMode::Direct),
            ins(OpCode::DAT, Modifier::Unset, 1, AddressMode::Direct, 0, AddressMode::Direct),
            ins(OpCode::DAT, Modifier::Unset, 0, AddressMode::Direct, 0, AddressMode::Direct),
        ],
        false,
    );

    // Modifier: BA
    test_seq(
        vec![
            ins(OpCode::SEQ, Modifier::BA, 1, AddressMode::Direct, 2, AddressMode::Direct),
            ins(OpCode::DAT, Modifier::Unset, 1, AddressMode::Direct, 0, AddressMode::Direct),
            ins(OpCode::DAT, Modifier::Unset, 0, AddressMode::Direct, 0, AddressMode::Direct),
        ],
        true,
    );

    test_seq(
        vec![
            ins(OpCode::SEQ, Modifier::BA, 1, AddressMode::Direct, 2, AddressMode::Direct),
            ins(OpCode::DAT, Modifier::Unset, 0, AddressMode::Direct, 1, AddressMode::Direct),
            ins(OpCode::DAT, Modifier::Unset, 1, AddressMode::Direct, 0, AddressMode::Direct),
        ],
        true,
    );

    test_seq(
        vec![
            ins(OpCode::SEQ, Modifier::BA, 1, AddressMode::Direct, 2, AddressMode::Direct),
            ins(OpCode::DAT, Modifier::Unset, 0, AddressMode::Direct, 1, AddressMode::Direct),
            ins(OpCode::DAT, Modifier::Unset, 0, AddressMode::Direct, 0, AddressMode::Direct),
        ],
        false,
    );

    // Modifier: B
    test_seq(
        vec![
            ins(OpCode::SEQ, Modifier::B, 1, AddressMode::Direct, 2, AddressMode::Direct),
            ins(OpCode::DAT, Modifier::Unset, 0, AddressMode::Direct, 0, AddressMode::Direct),
            ins(OpCode::DAT, Modifier::Unset, 0, AddressMode::Direct, 0, AddressMode::Direct),
        ],
        true,
    );
    test_seq(
        vec![
            ins(OpCode::SEQ, Modifier::B, 1, AddressMode::Direct, 2, AddressMode::Direct),
            ins(OpCode::DAT, Modifier::Unset, 1, AddressMode::Direct, 1, AddressMode::Direct),
            ins(OpCode::DAT, Modifier::Unset, 0, AddressMode::Direct, 1, AddressMode::Direct),
        ],
        true,
    );
    test_seq(
        vec![
            ins(OpCode::SEQ, Modifier::B, 1, AddressMode::Direct, 2, AddressMode::Direct),
            ins(OpCode::DAT, Modifier::Unset, 0, AddressMode::Direct, 1, AddressMode::Direct),
            ins(OpCode::DAT, Modifier::Unset, 0, AddressMode::Direct, 0, AddressMode::Direct),
        ],
        false,
    );

    // Modifier: AB
    test_seq(
        vec![
            ins(OpCode::SEQ, Modifier::AB, 1, AddressMode::Direct, 2, AddressMode::Direct),
            ins(OpCode::DAT, Modifier::Unset, 0, AddressMode::Direct, 0, AddressMode::Direct),
            ins(OpCode::DAT, Modifier::Unset, 0, AddressMode::Direct, 0, AddressMode::Direct),
        ],
        true,
    );
    test_seq(
        vec![
            ins(OpCode::SEQ, Modifier::AB, 1, AddressMode::Direct, 2, AddressMode::Direct),
            ins(OpCode::DAT, Modifier::Unset, 1, AddressMode::Direct, 0, AddressMode::Direct),
            ins(OpCode::DAT, Modifier::Unset, 0, AddressMode::Direct, 1, AddressMode::Direct),
        ],
        true,
    );
    test_seq(
        vec![
            ins(OpCode::SEQ, Modifier::AB, 1, AddressMode::Direct, 2, AddressMode::Direct),
            ins(OpCode::DAT, Modifier::Unset, 1, AddressMode::Direct, 1, AddressMode::Direct),
            ins(OpCode::DAT, Modifier::Unset, 0, AddressMode::Direct, 0, AddressMode::Direct),
        ],
        false,
    );

    // Modifier: F, X, I
    test_seq(
        vec![
            ins(OpCode::SEQ, Modifier::F, 1, AddressMode::Direct, 2, AddressMode::Direct),
            ins(OpCode::DAT, Modifier::Unset, 0, AddressMode::Direct, 0, AddressMode::Direct),
            ins(OpCode::DAT, Modifier::Unset, 0, AddressMode::Direct, 0, AddressMode::Direct),
        ],
        true,
    );
    test_seq(
        vec![
            ins(OpCode::SEQ, Modifier::X, 1, AddressMode::Direct, 2, AddressMode::Direct),
            ins(OpCode::DAT, Modifier::Unset, 0, AddressMode::Direct, 0, AddressMode::Direct),
            ins(OpCode::DAT, Modifier::Unset, 0, AddressMode::Direct, 0, AddressMode::Direct),
        ],
        true,
    );
    test_seq(
        vec![
            ins(OpCode::SEQ, Modifier::I, 1, AddressMode::Direct, 2, AddressMode::Direct),
            ins(OpCode::DAT, Modifier::Unset, 0, AddressMode::Direct, 0, AddressMode::Direct),
            ins(OpCode::DAT, Modifier::Unset, 0, AddressMode::Direct, 0, AddressMode::Direct),
        ],
        true,
    );

    test_seq(
        vec![
            ins(OpCode::SEQ, Modifier::F, 1, AddressMode::Direct, 2, AddressMode::Direct),
            ins(OpCode::DAT, Modifier::Unset, 1, AddressMode::Direct, 0, AddressMode::Direct),
            ins(OpCode::DAT, Modifier::Unset, 0, AddressMode::Direct, 0, AddressMode::Direct),
        ],
        false,
    );
    test_seq(
        vec![
            ins(OpCode::SEQ, Modifier::X, 1, AddressMode::Direct, 2, AddressMode::Direct),
            ins(OpCode::DAT, Modifier::Unset, 1, AddressMode::Direct, 0, AddressMode::Direct),
            ins(OpCode::DAT, Modifier::Unset, 0, AddressMode::Direct, 0, AddressMode::Direct),
        ],
        false,
    );

    test_seq(
        vec![
            ins(OpCode::SEQ, Modifier::F, 1, AddressMode::Direct, 2, AddressMode::Direct),
            ins(OpCode::DAT, Modifier::Unset, 1, AddressMode::Direct, 1, AddressMode::Direct),
            ins(OpCode::MOV, Modifier::Unset, 1, AddressMode::Direct, 1, AddressMode::Direct),
        ],
        true,
    );
    test_seq(
        vec![
            ins(OpCode::SEQ, Modifier::X, 1, AddressMode::Direct, 2, AddressMode::Direct),
            ins(OpCode::DAT, Modifier::Unset, 1, AddressMode::Direct, 1, AddressMode::Direct),
            ins(OpCode::MOV, Modifier::Unset, 1, AddressMode::Direct, 1, AddressMode::Direct),
        ],
        true,
    );
    test_seq(
        vec![
            ins(OpCode::SEQ, Modifier::I, 1, AddressMode::Direct, 2, AddressMode::Direct),
            ins(OpCode::DAT, Modifier::Unset, 1, AddressMode::Direct, 1, AddressMode::Direct),
            ins(OpCode::MOV, Modifier::Unset, 1, AddressMode::Direct, 1, AddressMode::Direct),
        ],
        false,
    );

    test_seq(
        vec![
            ins(OpCode::SEQ, Modifier::F, 1, AddressMode::Direct, 2, AddressMode::Direct),
            ins(OpCode::DAT, Modifier::Unset, 1, AddressMode::Direct, 1, AddressMode::Direct),
            ins(OpCode::DAT, Modifier::A, 1, AddressMode::Direct, 1, AddressMode::Direct),
        ],
        true,
    );
    test_seq(
        vec![
            ins(OpCode::SEQ, Modifier::X, 1, AddressMode::Direct, 2, AddressMode::Direct),
            ins(OpCode::DAT, Modifier::Unset, 1, AddressMode::Direct, 1, AddressMode::Direct),
            ins(OpCode::DAT, Modifier::A, 1, AddressMode::Direct, 1, AddressMode::Direct),
        ],
        true,
    );
    test_seq(
        vec![
            ins(OpCode::SEQ, Modifier::I, 1, AddressMode::Direct, 2, AddressMode::Direct),
            ins(OpCode::DAT, Modifier::Unset, 1, AddressMode::Direct, 1, AddressMode::Direct),
            ins(OpCode::DAT, Modifier::A, 1, AddressMode::Direct, 1, AddressMode::Direct),
        ],
        false,
    );

    test_seq(
        vec![
            ins(OpCode::SEQ, Modifier::F, 1, AddressMode::Direct, 2, AddressMode::Direct),
            ins(OpCode::DAT, Modifier::Unset, 1, AddressMode::Direct, 1, AddressMode::Direct),
            ins(OpCode::DAT, Modifier::Unset, 1, AddressMode::Direct, 0, AddressMode::Direct),
        ],
        false,
    );

    test_seq(
        vec![
            ins(OpCode::SEQ, Modifier::F, 1, AddressMode::Direct, 2, AddressMode::Direct),
            ins(OpCode::DAT, Modifier::Unset, 0, AddressMode::Direct, 1, AddressMode::Direct),
            ins(OpCode::DAT, Modifier::Unset, 1, AddressMode::Direct, 0, AddressMode::Direct),
        ],
        false,
    );
    test_seq(
        vec![
            ins(OpCode::SEQ, Modifier::I, 1, AddressMode::Direct, 2, AddressMode::Direct),
            ins(OpCode::DAT, Modifier::Unset, 0, AddressMode::Direct, 1, AddressMode::Direct),
            ins(OpCode::DAT, Modifier::Unset, 1, AddressMode::Direct, 0, AddressMode::Direct),
        ],
        false,
    );
    test_seq(
        vec![
            ins(OpCode::SEQ, Modifier::X, 1, AddressMode::Direct, 2, AddressMode::Direct),
            ins(OpCode::DAT, Modifier::Unset, 0, AddressMode::Direct, 1, AddressMode::Direct),
            ins(OpCode::DAT, Modifier::Unset, 1, AddressMode::Direct, 0, AddressMode::Direct),
        ],
        false,
    );

    test_seq(
        vec![
            ins(OpCode::SEQ, Modifier::F, 1, AddressMode::Direct, 2, AddressMode::Direct),
            ins(OpCode::DAT, Modifier::Unset, 1, AddressMode::Direct, 0, AddressMode::Direct),
            ins(OpCode::DAT, Modifier::Unset, 0, AddressMode::Direct, 1, AddressMode::Direct),
        ],
        false,
    );
    test_seq(
        vec![
            ins(OpCode::SEQ, Modifier::I, 1, AddressMode::Direct, 2, AddressMode::Direct),
            ins(OpCode::DAT, Modifier::Unset, 1, AddressMode::Direct, 0, AddressMode::Direct),
            ins(OpCode::DAT, Modifier::Unset, 0, AddressMode::Direct, 1, AddressMode::Direct),
        ],
        false,
    );
    test_seq(
        vec![
            ins(OpCode::SEQ, Modifier::X, 1, AddressMode::Direct, 2, AddressMode::Direct),
            ins(OpCode::DAT, Modifier::Unset, 1, AddressMode::Direct, 0, AddressMode::Direct),
            ins(OpCode::DAT, Modifier::Unset, 0, AddressMode::Direct, 1, AddressMode::Direct),
        ],
        false,
    );
}

#[test]
#[should_panic]
fn control_flow_skip_invalid_sne() {
    // None is not a valid modifier
    test_seq(
        vec![
            ins(OpCode::SNE, Modifier::Unset, 0, AddressMode::Direct, 0, AddressMode::Direct),
        ],
        false,
    );
}

#[test]
fn control_flow_skip_sne() {
    // Modifier: A
    test_seq(
        vec![
            ins(OpCode::SNE, Modifier::A, 1, AddressMode::Direct, 2, AddressMode::Direct),
            ins(OpCode::DAT, Modifier::Unset, 0, AddressMode::Direct, 0, AddressMode::Direct),
            ins(OpCode::DAT, Modifier::Unset, 0, AddressMode::Direct, 0, AddressMode::Direct),
        ],
        false,
    );
    test_seq(
        vec![
            ins(OpCode::SNE, Modifier::A, 1, AddressMode::Direct, 2, AddressMode::Direct),
            ins(OpCode::DAT, Modifier::Unset, 0, AddressMode::Direct, 1, AddressMode::Direct),
            ins(OpCode::DAT, Modifier::Unset, 0, AddressMode::Direct, 0, AddressMode::Direct),
        ],
        false,
    );
    test_seq(
        vec![
            ins(OpCode::SNE, Modifier::A, 1, AddressMode::Direct, 2, AddressMode::Direct),
            ins(OpCode::DAT, Modifier::Unset, 0, AddressMode::Direct, 0, AddressMode::Direct),
            ins(OpCode::DAT, Modifier::Unset, 0, AddressMode::Direct, 1, AddressMode::Direct),
        ],
        false,
    );
    test_seq(
        vec![
            ins(OpCode::SNE, Modifier::A, 1, AddressMode::Direct, 2, AddressMode::Direct),
            ins(OpCode::DAT, Modifier::Unset, 1, AddressMode::Direct, 0, AddressMode::Direct),
            ins(OpCode::DAT, Modifier::Unset, 0, AddressMode::Direct, 0, AddressMode::Direct),
        ],
        true,
    );
    test_seq(
        vec![
            ins(OpCode::SNE, Modifier::A, 1, AddressMode::Direct, 2, AddressMode::Direct),
            ins(OpCode::DAT, Modifier::Unset, 0, AddressMode::Direct, 0, AddressMode::Direct),
            ins(OpCode::DAT, Modifier::Unset, 1, AddressMode::Direct, 0, AddressMode::Direct),
        ],
        true,
    );

    // Modifier: AB
    test_seq(
        vec![
            ins(OpCode::SNE, Modifier::AB, 1, AddressMode::Direct, 2, AddressMode::Direct),
            ins(OpCode::DAT, Modifier::Unset, 0, AddressMode::Direct, 0, AddressMode::Direct),
            ins(OpCode::DAT, Modifier::Unset, 0, AddressMode::Direct, 0, AddressMode::Direct),
        ],
        false,
    );
    test_seq(
        vec![
            ins(OpCode::SNE, Modifier::AB, 1, AddressMode::Direct, 2, AddressMode::Direct),
            ins(OpCode::DAT, Modifier::Unset, 0, AddressMode::Direct, 1, AddressMode::Direct),
            ins(OpCode::DAT, Modifier::Unset, 0, AddressMode::Direct, 0, AddressMode::Direct),
        ],
        false,
    );
    test_seq(
        vec![
            ins(OpCode::SNE, Modifier::AB, 1, AddressMode::Direct, 2, AddressMode::Direct),
            ins(OpCode::DAT, Modifier::Unset, 0, AddressMode::Direct, 0, AddressMode::Direct),
            ins(OpCode::DAT, Modifier::Unset, 1, AddressMode::Direct, 0, AddressMode::Direct),
        ],
        false,
    );
    test_seq(
        vec![
            ins(OpCode::SNE, Modifier::AB, 1, AddressMode::Direct, 2, AddressMode::Direct),
            ins(OpCode::DAT, Modifier::Unset, 1, AddressMode::Direct, 0, AddressMode::Direct),
            ins(OpCode::DAT, Modifier::Unset, 0, AddressMode::Direct, 0, AddressMode::Direct),
        ],
        true,
    );
    test_seq(
        vec![
            ins(OpCode::SNE, Modifier::AB, 1, AddressMode::Direct, 2, AddressMode::Direct),
            ins(OpCode::DAT, Modifier::Unset, 0, AddressMode::Direct, 0, AddressMode::Direct),
            ins(OpCode::DAT, Modifier::Unset, 0, AddressMode::Direct, 1, AddressMode::Direct),
        ],
        true,
    );

    // Modifier: BA
    test_seq(
        vec![
            ins(OpCode::SNE, Modifier::BA, 1, AddressMode::Direct, 2, AddressMode::Direct),
            ins(OpCode::DAT, Modifier::Unset, 0, AddressMode::Direct, 0, AddressMode::Direct),
            ins(OpCode::DAT, Modifier::Unset, 0, AddressMode::Direct, 0, AddressMode::Direct),
        ],
        false,
    );
    test_seq(
        vec![
            ins(OpCode::SNE, Modifier::BA, 1, AddressMode::Direct, 2, AddressMode::Direct),
            ins(OpCode::DAT, Modifier::Unset, 1, AddressMode::Direct, 0, AddressMode::Direct),
            ins(OpCode::DAT, Modifier::Unset, 0, AddressMode::Direct, 0, AddressMode::Direct),
        ],
        false,
    );
    test_seq(
        vec![
            ins(OpCode::SNE, Modifier::BA, 1, AddressMode::Direct, 2, AddressMode::Direct),
            ins(OpCode::DAT, Modifier::Unset, 0, AddressMode::Direct, 0, AddressMode::Direct),
            ins(OpCode::DAT, Modifier::Unset, 0, AddressMode::Direct, 1, AddressMode::Direct),
        ],
        false,
    );
    test_seq(
        vec![
            ins(OpCode::SNE, Modifier::BA, 1, AddressMode::Direct, 2, AddressMode::Direct),
            ins(OpCode::DAT, Modifier::Unset, 0, AddressMode::Direct, 1, AddressMode::Direct),
            ins(OpCode::DAT, Modifier::Unset, 0, AddressMode::Direct, 0, AddressMode::Direct),
        ],
        true,
    );
    test_seq(
        vec![
            ins(OpCode::SNE, Modifier::BA, 1, AddressMode::Direct, 2, AddressMode::Direct),
            ins(OpCode::DAT, Modifier::Unset, 0, AddressMode::Direct, 0, AddressMode::Direct),
            ins(OpCode::DAT, Modifier::Unset, 1, AddressMode::Direct, 0, AddressMode::Direct),
        ],
        true,
    );

    // Modifier: B
    test_seq(
        vec![
            ins(OpCode::SNE, Modifier::B, 1, AddressMode::Direct, 2, AddressMode::Direct),
            ins(OpCode::DAT, Modifier::Unset, 0, AddressMode::Direct, 0, AddressMode::Direct),
            ins(OpCode::DAT, Modifier::Unset, 0, AddressMode::Direct, 0, AddressMode::Direct),
        ],
        false,
    );
    test_seq(
        vec![
            ins(OpCode::SNE, Modifier::B, 1, AddressMode::Direct, 2, AddressMode::Direct),
            ins(OpCode::DAT, Modifier::Unset, 1, AddressMode::Direct, 0, AddressMode::Direct),
            ins(OpCode::DAT, Modifier::Unset, 0, AddressMode::Direct, 0, AddressMode::Direct),
        ],
        false,
    );
    test_seq(
        vec![
            ins(OpCode::SNE, Modifier::B, 1, AddressMode::Direct, 2, AddressMode::Direct),
            ins(OpCode::DAT, Modifier::Unset, 0, AddressMode::Direct, 0, AddressMode::Direct),
            ins(OpCode::DAT, Modifier::Unset, 1, AddressMode::Direct, 0, AddressMode::Direct),
        ],
        false,
    );
    test_seq(
        vec![
            ins(OpCode::SNE, Modifier::B, 1, AddressMode::Direct, 2, AddressMode::Direct),
            ins(OpCode::DAT, Modifier::Unset, 0, AddressMode::Direct, 1, AddressMode::Direct),
            ins(OpCode::DAT, Modifier::Unset, 0, AddressMode::Direct, 0, AddressMode::Direct),
        ],
        true,
    );
    test_seq(
        vec![
            ins(OpCode::SNE, Modifier::B, 1, AddressMode::Direct, 2, AddressMode::Direct),
            ins(OpCode::DAT, Modifier::Unset, 0, AddressMode::Direct, 0, AddressMode::Direct),
            ins(OpCode::DAT, Modifier::Unset, 0, AddressMode::Direct, 1, AddressMode::Direct),
        ],
        true,
    );

    // Modifier: F, X, I (Should all be indentical)
    test_seq(
        vec![
            ins(OpCode::SNE, Modifier::F, 1, AddressMode::Direct, 2, AddressMode::Direct),
            ins(OpCode::DAT, Modifier::Unset, 1, AddressMode::Direct, 0, AddressMode::Direct),
            ins(OpCode::DAT, Modifier::Unset, 0, AddressMode::Direct, 0, AddressMode::Direct),
        ],
        true,
    );
    test_seq(
        vec![
            ins(OpCode::SNE, Modifier::X, 1, AddressMode::Direct, 2, AddressMode::Direct),
            ins(OpCode::DAT, Modifier::Unset, 1, AddressMode::Direct, 0, AddressMode::Direct),
            ins(OpCode::DAT, Modifier::Unset, 0, AddressMode::Direct, 0, AddressMode::Direct),
        ],
        true,
    );
    test_seq(
        vec![
            ins(OpCode::SNE, Modifier::I, 1, AddressMode::Direct, 2, AddressMode::Direct),
            ins(OpCode::DAT, Modifier::Unset, 1, AddressMode::Direct, 0, AddressMode::Direct),
            ins(OpCode::DAT, Modifier::Unset, 0, AddressMode::Direct, 0, AddressMode::Direct),
        ],
        true,
    );

    test_seq(
        vec![
            ins(OpCode::SNE, Modifier::F, 1, AddressMode::Direct, 2, AddressMode::Direct),
            ins(OpCode::DAT, Modifier::Unset, 0, AddressMode::Direct, 1, AddressMode::Direct),
            ins(OpCode::DAT, Modifier::Unset, 0, AddressMode::Direct, 0, AddressMode::Direct),
        ],
        true,
    );
    test_seq(
        vec![
            ins(OpCode::SNE, Modifier::X, 1, AddressMode::Direct, 2, AddressMode::Direct),
            ins(OpCode::DAT, Modifier::Unset, 0, AddressMode::Direct, 1, AddressMode::Direct),
            ins(OpCode::DAT, Modifier::Unset, 0, AddressMode::Direct, 0, AddressMode::Direct),
        ],
        true,
    );
    test_seq(
        vec![
            ins(OpCode::SNE, Modifier::I, 1, AddressMode::Direct, 2, AddressMode::Direct),
            ins(OpCode::DAT, Modifier::Unset, 0, AddressMode::Direct, 1, AddressMode::Direct),
            ins(OpCode::DAT, Modifier::Unset, 0, AddressMode::Direct, 0, AddressMode::Direct),
        ],
        true,
    );

    test_seq(
        vec![
            ins(OpCode::SNE, Modifier::F, 1, AddressMode::Direct, 2, AddressMode::Direct),
            ins(OpCode::DAT, Modifier::Unset, 1, AddressMode::Direct, 1, AddressMode::Direct),
            ins(OpCode::DAT, Modifier::Unset, 0, AddressMode::Direct, 0, AddressMode::Direct),
        ],
        true,
    );

    test_seq(
        vec![
            ins(OpCode::SNE, Modifier::F, 1, AddressMode::Direct, 2, AddressMode::Direct),
            ins(OpCode::DAT, Modifier::Unset, 0, AddressMode::Direct, 0, AddressMode::Direct),
            ins(OpCode::DAT, Modifier::Unset, 1, AddressMode::Direct, 0, AddressMode::Direct),
        ],
        true,
    );

    test_seq(
        vec![
            ins(OpCode::SNE, Modifier::F, 1, AddressMode::Direct, 2, AddressMode::Direct),
            ins(OpCode::DAT, Modifier::Unset, 0, AddressMode::Direct, 0, AddressMode::Direct),
            ins(OpCode::DAT, Modifier::Unset, 0, AddressMode::Direct, 1, AddressMode::Direct),
        ],
        true,
    );

    test_seq(
        vec![
            ins(OpCode::SNE, Modifier::F, 1, AddressMode::Direct, 2, AddressMode::Direct),
            ins(OpCode::DAT, Modifier::Unset, 0, AddressMode::Direct, 0, AddressMode::Direct),
            ins(OpCode::DAT, Modifier::Unset, 0, AddressMode::Direct, 0, AddressMode::Direct),
        ],
        false,
    );
}

#[test]
#[should_panic]
fn control_flow_skip_invalid_slt_none() {
    // None is not a valid modifier
    test_seq(
        vec![
            ins(OpCode::SLT, Modifier::Unset, 0, AddressMode::Direct, 0, AddressMode::Direct),
        ],
        false,
    );
}

#[test]
#[should_panic]
fn control_flow_skip_invalid_slt_i() {
    // I is not a valid modifier
    test_seq(
        vec![
            ins(OpCode::SLT, Modifier::I, 0, AddressMode::Direct, 0, AddressMode::Direct),
        ],
        false,
    );
}

#[test]
fn control_flow_skip_slt() {
    // Modifier: A
    test_seq(
        vec![
            ins(OpCode::SLT, Modifier::A, 1, AddressMode::Direct, 2, AddressMode::Direct),
            ins(OpCode::DAT, Modifier::Unset, 1, AddressMode::Direct, 0, AddressMode::Direct),
            ins(OpCode::DAT, Modifier::Unset, 0, AddressMode::Direct, 0, AddressMode::Direct),
        ],
        false,
    );
    test_seq(
        vec![
            ins(OpCode::SLT, Modifier::A, 1, AddressMode::Direct, 2, AddressMode::Direct),
            ins(OpCode::DAT, Modifier::Unset, 0, AddressMode::Direct, 0, AddressMode::Direct),
            ins(OpCode::DAT, Modifier::Unset, 0, AddressMode::Direct, 1, AddressMode::Direct),
        ],
        false,
    );
    test_seq(
        vec![
            ins(OpCode::SLT, Modifier::A, 1, AddressMode::Direct, 2, AddressMode::Direct),
            ins(OpCode::DAT, Modifier::Unset, 0, AddressMode::Direct, 0, AddressMode::Direct),
            ins(OpCode::DAT, Modifier::Unset, 1, AddressMode::Direct, 0, AddressMode::Direct),
        ],
        true,
    );

    // Modifier: B
    test_seq(
        vec![
            ins(OpCode::SLT, Modifier::B, 1, AddressMode::Direct, 2, AddressMode::Direct),
            ins(OpCode::DAT, Modifier::Unset, 0, AddressMode::Direct, 1, AddressMode::Direct),
            ins(OpCode::DAT, Modifier::Unset, 0, AddressMode::Direct, 0, AddressMode::Direct),
        ],
        false,
    );
    test_seq(
        vec![
            ins(OpCode::SLT, Modifier::B, 1, AddressMode::Direct, 2, AddressMode::Direct),
            ins(OpCode::DAT, Modifier::Unset, 0, AddressMode::Direct, 0, AddressMode::Direct),
            ins(OpCode::DAT, Modifier::Unset, 1, AddressMode::Direct, 0, AddressMode::Direct),
        ],
        false,
    );
    test_seq(
        vec![
            ins(OpCode::SLT, Modifier::B, 1, AddressMode::Direct, 2, AddressMode::Direct),
            ins(OpCode::DAT, Modifier::Unset, 0, AddressMode::Direct, 0, AddressMode::Direct),
            ins(OpCode::DAT, Modifier::Unset, 0, AddressMode::Direct, 1, AddressMode::Direct),
        ],
        true,
    );

    // Modifier: AB
    test_seq(
        vec![
            ins(OpCode::SLT, Modifier::AB, 1, AddressMode::Direct, 2, AddressMode::Direct),
            ins(OpCode::DAT, Modifier::Unset, 1, AddressMode::Direct, 0, AddressMode::Direct),
            ins(OpCode::DAT, Modifier::Unset, 0, AddressMode::Direct, 0, AddressMode::Direct),
        ],
        false,
    );
    test_seq(
        vec![
            ins(OpCode::SLT, Modifier::AB, 1, AddressMode::Direct, 2, AddressMode::Direct),
            ins(OpCode::DAT, Modifier::Unset, 0, AddressMode::Direct, 0, AddressMode::Direct),
            ins(OpCode::DAT, Modifier::Unset, 1, AddressMode::Direct, 0, AddressMode::Direct),
        ],
        false,
    );
    test_seq(
        vec![
            ins(OpCode::SLT, Modifier::AB, 1, AddressMode::Direct, 2, AddressMode::Direct),
            ins(OpCode::DAT, Modifier::Unset, 0, AddressMode::Direct, 0, AddressMode::Direct),
            ins(OpCode::DAT, Modifier::Unset, 0, AddressMode::Direct, 1, AddressMode::Direct),
        ],
        true,
    );

    // Modifier: BA
    test_seq(
        vec![
            ins(OpCode::SLT, Modifier::BA, 1, AddressMode::Direct, 2, AddressMode::Direct),
            ins(OpCode::DAT, Modifier::Unset, 0, AddressMode::Direct, 1, AddressMode::Direct),
            ins(OpCode::DAT, Modifier::Unset, 0, AddressMode::Direct, 0, AddressMode::Direct),
        ],
        false,
    );
    test_seq(
        vec![
            ins(OpCode::SLT, Modifier::BA, 1, AddressMode::Direct, 2, AddressMode::Direct),
            ins(OpCode::DAT, Modifier::Unset, 0, AddressMode::Direct, 0, AddressMode::Direct),
            ins(OpCode::DAT, Modifier::Unset, 0, AddressMode::Direct, 1, AddressMode::Direct),
        ],
        false,
    );
    test_seq(
        vec![
            ins(OpCode::SLT, Modifier::BA, 1, AddressMode::Direct, 2, AddressMode::Direct),
            ins(OpCode::DAT, Modifier::Unset, 0, AddressMode::Direct, 0, AddressMode::Direct),
            ins(OpCode::DAT, Modifier::Unset, 1, AddressMode::Direct, 0, AddressMode::Direct),
        ],
        true,
    );
}
