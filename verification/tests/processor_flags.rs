use kernel_sim::virtual_machine::processor::VMProcessor;

#[test]
fn test_carry_flag_true() {
    let mut cpu = VMProcessor::new();
    cpu.set_carry_flag(true);
    assert_eq!(cpu.get_carry_flag(), true);
}

#[test]
fn test_carry_flag_false() {
    let mut cpu = VMProcessor::new();
    cpu.set_carry_flag(false);
    assert_eq!(cpu.get_carry_flag(), false);
}

#[test]
fn test_parity_flag_true() {
    let mut cpu = VMProcessor::new();
    cpu.set_parity_flag(true);
    assert_eq!(cpu.get_parity_flag(), true);
}

#[test]
fn test_parity_flag_false() {
    let mut cpu = VMProcessor::new();
    cpu.set_parity_flag(false);
    assert_eq!(cpu.get_parity_flag(), false);
}

#[test]
fn test_auxiliary_carry_flag_true() {
    let mut cpu = VMProcessor::new();
    cpu.set_auxiliary_carry_flag(true);
    assert_eq!(cpu.get_auxiliary_carry_flag(), true);
}

#[test]
fn test_auxiliary_carry_flag_false() {
    let mut cpu = VMProcessor::new();
    cpu.set_auxiliary_carry_flag(false);
    assert_eq!(cpu.get_auxiliary_carry_flag(), false);
}

#[test]
fn test_zero_flag_true() {
    let mut cpu = VMProcessor::new();
    cpu.set_zero_flag(true);
    assert_eq!(cpu.get_zero_flag(), true);
}

#[test]
fn test_zero_flag_false() {
    let mut cpu = VMProcessor::new();
    cpu.set_zero_flag(false);
    assert_eq!(cpu.get_zero_flag(), false);
}

#[test]
fn test_sign_flag_true() {
    let mut cpu = VMProcessor::new();
    cpu.set_sign_flag(true);
    assert_eq!(cpu.get_sign_flag(), true);
}

#[test]
fn test_sign_flag_false() {
    let mut cpu = VMProcessor::new();
    cpu.set_sign_flag(false);
    assert_eq!(cpu.get_sign_flag(), false);
}

#[test]
fn test_trap_flag_true() {
    let mut cpu = VMProcessor::new();
    cpu.set_trap_flag(true);
    assert_eq!(cpu.get_trap_flag(), true);
}

#[test]
fn test_trap_flag_false() {
    let mut cpu = VMProcessor::new();
    cpu.set_trap_flag(false);
    assert_eq!(cpu.get_trap_flag(), false);
}

#[test]
fn test_interrupt_flag_true() {
    let mut cpu = VMProcessor::new();
    cpu.set_interrupt_flag(true);
    assert_eq!(cpu.get_interrupt_flag(), true);
}

#[test]
fn test_interrupt_flag_false() {
    let mut cpu = VMProcessor::new();
    cpu.set_interrupt_flag(false);
    assert_eq!(cpu.get_interrupt_flag(), false);
}

#[test]
fn test_directional_flag_true() {
    let mut cpu = VMProcessor::new();
    cpu.set_directional_flag(true);
    assert_eq!(cpu.get_directional_flag(), true);
}

#[test]
fn test_directional_flag_false() {
    let mut cpu = VMProcessor::new();
    cpu.set_directional_flag(false);
    assert_eq!(cpu.get_directional_flag(), false);
}

#[test]
fn test_overflow_flag_true() {
    let mut cpu = VMProcessor::new();
    cpu.set_overflow_flag(true);
    assert_eq!(cpu.get_overflow_flag(), true);
}

#[test]
fn test_overflow_flag_false() {
    let mut cpu = VMProcessor::new();
    cpu.set_overflow_flag(false);
    assert_eq!(cpu.get_overflow_flag(), false);
}

#[test]
fn test_supervisor_flag_true() {
    let mut cpu = VMProcessor::new();
    cpu.set_supervisor_flag(true);
    assert_eq!(cpu.get_supervisor_flag(), false);
}

#[test]
fn test_supervisor_flag_false() {
    let mut cpu = VMProcessor::new();
    cpu.set_supervisor_flag(false);
    assert_eq!(cpu.get_supervisor_flag(), false);
}

#[test]
fn flags_do_not_disturb_each_other() {
    let mut cpu = VMProcessor::new();
    cpu.set_carry_flag(true);
    cpu.set_zero_flag(true);
    cpu.set_overflow_flag(true);
    cpu.set_zero_flag(false);
    let mut same = VMProcessor::new();
    same.set_carry_flag(true);
    same.set_overflow_flag(true);
    assert_eq!(format!("{:?}", cpu), format!("{:?}", same));
    assert_eq!(cpu.get_carry_flag(), true);
}

#[test]
fn status_register_bits() {
    let mut cpu = VMProcessor::new();
    cpu.set_carry_flag(true);
    cpu.set_parity_flag(true);
    cpu.set_auxiliary_carry_flag(true);
    cpu.set_zero_flag(true);
    cpu.set_sign_flag(true);
    cpu.set_trap_flag(true);
    cpu.set_interrupt_flag(true);
    cpu.set_directional_flag(true);
    cpu.set_overflow_flag(true);
    cpu.set_supervisor_flag(true);
    assert!(format!("{:?}", cpu).contains(&format!("sr: {}", 0x0fd5)));
}

#[test]
fn lowering_parity_masks_the_register() {
    let mut cpu = VMProcessor::new();
    cpu.set_carry_flag(true);
    cpu.set_parity_flag(true);
    cpu.set_parity_flag(false);
    assert!(format!("{:?}", cpu).contains(&format!("sr: {}", 0x0004)));
    assert_eq!(cpu.get_parity_flag(), true);
}
