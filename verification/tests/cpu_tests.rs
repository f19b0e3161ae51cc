use actionkv::cpu::{Chip8CPU, CpuFault};

#[test]
fn read_opcode_combines_two_bytes() {
    let mut cpu = Chip8CPU::new();
    cpu.write_memory(0, 0x80);
    cpu.write_memory(1, 0x14);
    assert_eq!(cpu.read_opcode(), 0x8014);
}

#[test]
fn add_xy_without_carry() {
    let mut cpu = Chip8CPU::new();
    cpu.write_register(1, 20);
    cpu.write_register(2, 22);
    cpu.add_xy(1, 2);
    assert_eq!(cpu.register(1), 42);
    assert_eq!(cpu.register(15), 0);
}

#[test]
fn add_xy_with_carry_wraps() {
    let mut cpu = Chip8CPU::new();
    cpu.write_register(1, 200);
    cpu.write_register(2, 100);
    cpu.add_xy(1, 2);
    assert_eq!(cpu.register(1), 44);
    assert_eq!(cpu.register(15), 1);
}

#[test]
fn straight_line_adds() {
    let mut cpu = Chip8CPU::new();
    cpu.write_register(0, 0);
    cpu.write_register(1, 12);
    cpu.write_register(2, 17);
    cpu.write_register(3, 9);
    // Add registers 1, 2 and 3 into register 0, then halt.
    cpu.write_memory(0, 0x80);
    cpu.write_memory(1, 0x14);
    cpu.write_memory(2, 0x80);
    cpu.write_memory(3, 0x24);
    cpu.write_memory(4, 0x80);
    cpu.write_memory(5, 0x34);
    cpu.run().unwrap();
    assert_eq!(cpu.register(0), 38);
    assert_eq!(cpu.register(15), 0);
    assert_eq!(cpu.program_counter(), 8);
    assert_eq!(cpu.stack_pointer(), 0);
    assert_eq!(cpu.register(1), 12);
    assert_eq!(cpu.register(2), 17);
    assert_eq!(cpu.register(3), 9);
}

#[test]
fn call_and_return() {
    let mut cpu = Chip8CPU::new();
    cpu.write_register(0, 5);
    cpu.write_register(1, 10);
    // Call the function at 0x100 twice, then halt.
    cpu.write_memory(0x000, 0x21);
    cpu.write_memory(0x001, 0x00);
    cpu.write_memory(0x002, 0x21);
    cpu.write_memory(0x003, 0x00);
    cpu.write_memory(0x004, 0x00);
    cpu.write_memory(0x005, 0x00);
    // The function adds register 1 into register 0 twice, then returns.
    cpu.write_memory(0x100, 0x80);
    cpu.write_memory(0x101, 0x14);
    cpu.write_memory(0x102, 0x80);
    cpu.write_memory(0x103, 0x14);
    cpu.write_memory(0x104, 0x00);
    cpu.write_memory(0x105, 0xEE);
    cpu.run().unwrap();
    assert_eq!(cpu.register(0), 45);
    assert_eq!(cpu.register(15), 0);
    assert_eq!(cpu.program_counter(), 6);
    assert_eq!(cpu.stack_pointer(), 0);
}

#[test]
fn return_with_empty_stack_faults() {
    let mut cpu = Chip8CPU::new();
    cpu.write_memory(0, 0x00);
    cpu.write_memory(1, 0xEE);
    assert_eq!(cpu.run(), Err(CpuFault::StackUnderflow));
}

#[test]
fn unknown_opcode_faults() {
    let mut cpu = Chip8CPU::new();
    cpu.write_memory(0, 0xF0);
    cpu.write_memory(1, 0x01);
    assert_eq!(
        cpu.run(),
        Err(CpuFault::UnknownOpcode { opcode: 0xF001 })
    );
}
