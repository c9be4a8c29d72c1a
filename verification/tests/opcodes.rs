use chip8::cpu::Cpu;
use chip8::display::Pixel;

//00E0
#[test]
fn chip8_it_clears_screen() {
    let mut cpu = Cpu::new();
    cpu.display.toggle_pixel(1);
    cpu.run_opcode(0x00E0);
    assert!(cpu.display.get_pixel(1) == Pixel::Off);
}

#[test]
fn chip8_it_splits_nibbles() {
    let nibbles = Cpu::get_nibbles(0x1234);
    let expected_nibbles: (u8, usize, usize, u8) = (1, 2, 3, 4);
    assert_eq!(expected_nibbles, nibbles);
}

//1nnn
#[test]
fn chip8_it_sets_pc() {
    let mut cpu = Cpu::new();
    cpu.run_opcode(0x1123);
    assert_eq!(cpu.pc, 0x123);
}

//2nnn
#[test]
fn chip8_it_calls_subroutine() {
    let mut cpu = Cpu::new();
    cpu.run_opcode(0x2123);
    assert_eq!(cpu.s_ptr, 1);
    assert_eq!(cpu.stack[0], 0);
    assert_eq!(cpu.pc, 0x123);
}

//00EE
#[test]
fn chip8_it_returns_from_subroutine() {
    let mut cpu = Cpu::new();
    cpu.s_ptr = 1;
    cpu.stack[1] = 0x321;
    cpu.pc = 0x123;
    cpu.run_opcode(0x00EE);
    assert_eq!(cpu.pc, 0x321);
}

//3xkk
#[test]
fn chip8_it_skips_if_equal() {
    let mut cpu = Cpu::new();
    cpu.registers[0xF] = 0xAA;
    cpu.pc = 10;
    cpu.run_opcode(0x3FAA);
    assert_eq!(12, cpu.pc);
}

//3xkk
#[test]
fn chip8_it_doesnt_skip_if_not_equal() {
    let mut cpu = Cpu::new();
    cpu.registers[0xF] = 0xA1;
    cpu.pc = 10;
    cpu.run_opcode(0x3FAA);
    assert_eq!(10, cpu.pc);
}

//4xkk
#[test]
fn chip8_it_skips_if_not_equal() {
    let mut cpu = Cpu::new();
    cpu.registers[0xF] = 0xA1;
    cpu.pc = 10;
    cpu.run_opcode(0x4FAA);
    assert_eq!(12, cpu.pc);
}

//4xkk
#[test]
fn chip8_it_doesnt_skip_if_equal() {
    let mut cpu = Cpu::new();
    cpu.registers[0xF] = 0xA1;
    cpu.pc = 10;
    cpu.run_opcode(0x4FA1);
    assert_eq!(10, cpu.pc);
}

//5xy0
#[test]
fn chip8_it_skips_if_registers_equal() {
    let mut cpu = Cpu::new();
    cpu.registers[0xF] = 0xAA;
    cpu.registers[0xD] = 0xAA;
    cpu.pc = 10;
    cpu.run_opcode(0x5FD0);
    assert_eq!(12, cpu.pc);
}

//6xkk
#[test]
fn chip8_it_sets_reg_value() {
    let mut cpu = Cpu::new();
    cpu.run_opcode(0x6BAB);
    assert_eq!(cpu.registers[0xB], 0xAB);
}

//7xkk
#[test]
fn chip8_it_adds_and_sets_reg_value() {
    let mut cpu = Cpu::new();
    cpu.registers[0xB] = 0x0A;
    cpu.run_opcode(0x7BAB);
    assert_eq!(cpu.registers[0xB], 0xAB + 0x0A);
}

//8xy0
#[test]
fn chip8_it_copies_register_values_to_x_from_y() {
    let mut cpu = Cpu::new();
    cpu.registers[0x1] = 0x1C; //Vx
    cpu.registers[0x5] = 0x10; //Vy
    cpu.run_opcode(0x8150);
    assert_eq!(cpu.registers[0x1], 0x10);
}

//8xy1
#[test]
fn chip8_it_bitwise_or_register_values_and_store_to_x() {
    let mut cpu = Cpu::new();
    cpu.registers[0x1] = 0x1C; //Vx
    cpu.registers[0x5] = 0x10; //Vy
    cpu.run_opcode(0x8151);
    assert_eq!(cpu.registers[0x1], 0x10 | 0x1C);
}

//8xy2
#[test]
fn chip8_it_bitwise_and_register_values_and_store_to_x() {
    let mut cpu = Cpu::new();
    cpu.registers[0x1] = 0x1C; //Vx
    cpu.registers[0x5] = 0x10; //Vy
    cpu.run_opcode(0x8152);
    assert_eq!(cpu.registers[0x1], 0x10 & 0x1C);
}

//8xy3
#[test]
fn chip8_it_bitwise_xor_register_values_and_store_to_x() {
    let mut cpu = Cpu::new();
    cpu.registers[0x1] = 0x1C; //Vx
    cpu.registers[0x5] = 0x10; //Vy
    cpu.run_opcode(0x8153);
    assert_eq!(cpu.registers[0x1], 0x10 ^ 0x1C);
}

//8xy4
#[test]
fn chip8_it_adds_register_values_and_store_to_x() {
    let mut cpu = Cpu::new();
    cpu.registers[0x1] = 0x1C; //Vx
    cpu.registers[0x5] = 0x10; //Vy
    cpu.run_opcode(0x8154);
    assert_eq!(cpu.registers[0x1], 0x10 + 0x1C);
}

//8xy4
#[test]
fn chip8_it_overflows_on_add_register_values_and_store_to_x() {
    let mut cpu = Cpu::new();
    cpu.registers[0x1] = 0xFF; //Vx
    cpu.registers[0x5] = 0xFF; //Vy
    cpu.run_opcode(0x8154);
    assert_eq!(cpu.registers[0x1], ((0xFF + 0xFF) & 0xFF) as u8);
    assert_eq!(cpu.registers[0xF], 1);
}

//8xy5
#[test]
fn chip8_it_subtracts_register_values_and_store_to_x() {
    let mut cpu = Cpu::new();
    cpu.registers[0x1] = 0x1C; //Vx
    cpu.registers[0x5] = 0x10; //Vy
    cpu.run_opcode(0x8155);
    assert_eq!(cpu.registers[0x1], 0x1C - 0x10);
    assert_eq!(cpu.registers[0xF], 1);
}

//8xy5
#[test]
fn chip8_it_carries_subtracts_register_values_and_store_to_x() {
    let mut cpu = Cpu::new();
    cpu.registers[0x1] = 0x10; //Vx
    cpu.registers[0x5] = 0x1C; //Vy
    cpu.run_opcode(0x8155);
    assert_eq!(cpu.registers[0x1], (0x110 - 0x1C) as u8);
    assert_eq!(cpu.registers[0xF], 0);
}

//8xy6
#[test]
fn chip8_it_sets_vf_if_lsb_1() {
    let mut cpu = Cpu::new();
    cpu.registers[0x1] = 0x11; //Vx
    cpu.run_opcode(0x8156);
    assert_eq!(cpu.registers[0xF], 1);
    assert_eq!(cpu.registers[0x1], 0x10 / 2);
}

//8xy6
#[test]
fn chip8_it_unsets_vf_if_lsb_0() {
    let mut cpu = Cpu::new();
    cpu.registers[0x1] = 0x10; //Vx
    cpu.run_opcode(0x8156);
    assert_eq!(cpu.registers[0xF], 0);
    assert_eq!(cpu.registers[0x1], 0x10 / 2);
}

//8xy7
#[test]
fn chip8_it_subtracts_vx_from_vy() {
    let mut cpu = Cpu::new();
    cpu.registers[0x1] = 0x10; //Vx
    cpu.registers[0x5] = 0x1C; //Vy
    cpu.run_opcode(0x8157);
    assert_eq!(cpu.registers[0x1], 0x1C - 0x10);
    assert_eq!(cpu.registers[0xF], 1);
}

//8xy7
#[test]
fn chip8_it_carries_subtracts_vx_from_vy() {
    let mut cpu = Cpu::new();
    cpu.registers[0x1] = 0x1C; //Vx
    cpu.registers[0x5] = 0x10; //Vy
    cpu.run_opcode(0x8157);
    assert_eq!(cpu.registers[0x1], (0x110 - 0x1C) as u8);
    assert_eq!(cpu.registers[0xF], 0);
}

//8xyE
#[test]
fn chip8_it_sets_vf_if_msb_1() {
    let mut cpu = Cpu::new();
    cpu.registers[0x1] = 0xFF; //Vx
    cpu.run_opcode(0x815E);
    assert_eq!(cpu.registers[0xF], 1);
    assert_eq!(cpu.registers[0x1], (0xFF * 2u16 & 0xFF) as u8);
}

//8xyE
#[test]
fn chip8_it_unsets_vf_if_msb_0() {
    let mut cpu = Cpu::new();
    cpu.registers[0x1] = 0b0100_0000; //Vx
    cpu.run_opcode(0x815E);
    assert_eq!(cpu.registers[0xF], 0);
    assert_eq!(cpu.registers[0x1], 0x40 * 2);
}

//9xy0
#[test]
fn chip8_it_skips_if_registers_not_equal() {
    let mut cpu = Cpu::new();
    cpu.registers[0xF] = 0xAB;
    cpu.registers[0xD] = 0xAA;
    cpu.pc = 10;
    cpu.run_opcode(0x9FD0);
    assert_eq!(12, cpu.pc);
}

//Annn
#[test]
fn chip8_it_sets_i_to_nnn() {
    let mut cpu = Cpu::new();
    cpu.run_opcode(0xA123);
    assert_eq!(cpu.i, 0x123);
}

//Bnnn
#[test]
fn chip8_it_jumps_to_nnn_plus_v0() {
    let mut cpu = Cpu::new();
    cpu.registers[0] = 0x12;
    cpu.run_opcode(0xB123);
    assert_eq!(cpu.pc, 0x123 + 0x12);
}

//Cxkk
#[test]
fn chip8_it_ands_00_with_rand_and_stores_0() {
    let mut cpu = Cpu::new();
    cpu.registers[0xC] = 0x12;
    cpu.run_opcode(0xCC00);
    assert_eq!(cpu.registers[0xC], 0);
}

//Dxyn
#[test]
fn chip8_it_displays_sprite() {
    let mut cpu = Cpu::new();
    cpu.registers[0] = 0;
    cpu.registers[1] = 0;
    cpu.memory[0] = 0b1000_0001;
    cpu.memory[1] = 0b1000_0001;
    cpu.memory[2] = 0b1111_1111;
    cpu.memory[3] = 0b1000_0001;
    cpu.memory[4] = 0b1000_0001;
    cpu.run_opcode(0xD015);
    cpu.registers[0] = 9;
    cpu.run_opcode(0xD015);
    println!("{}", cpu.display.render());
}

//Ex9E
#[test]
fn chip8_it_skips_instruction_if_key_pressed() {
    let mut cpu = Cpu::new();
    cpu.registers[0xC] = 0xC;
    cpu.keyboard.set_key(0xC);
    cpu.pc = 10;
    cpu.run_opcode(0xEC9E);
    assert_eq!(cpu.pc, 12);
}

//ExA1
#[test]
fn chip8_it_skips_instruction_if_key_not_pressed() {
    let mut cpu = Cpu::new();
    cpu.keyboard.set_key(0xB);
    cpu.pc = 10;
    cpu.run_opcode(0xECA1);
    assert_eq!(cpu.pc, 12);
}

//Fx07
#[test]
fn chip8_it_load_delay_timer_value() {
    let mut cpu = Cpu::new();
    cpu.delay_timer = 0x12;
    cpu.run_opcode(0xFF07);
    assert_eq!(cpu.registers[0xF], 0x12);
}

//Fx0A
#[test]
fn chip8_it_waits_for_key_press() {
    let mut cpu = Cpu::new();
    cpu.pc = 2;
    cpu.run_opcode(0xF10A);
    assert_eq!(cpu.pc, 0);
}

//Fx15
#[test]
fn chip8_it_sets_delay_timer() {
    let mut cpu = Cpu::new();
    cpu.registers[0x5] = 0x12;
    cpu.run_opcode(0xF515);
    assert_eq!(cpu.delay_timer, 0x12);
}

//Fx18
#[test]
fn chip8_it_sets_sound_timer() {
    let mut cpu = Cpu::new();
    cpu.registers[0x5] = 0x12;
    cpu.run_opcode(0xF518);
    assert_eq!(cpu.sound_timer, 0x12);
}

//Fx1E
#[test]
fn chip8_it_adds_vx_to_i() {
    let mut cpu = Cpu::new();
    cpu.i = 10;
    cpu.registers[0x1] = 10;
    cpu.run_opcode(0xF11E);
    assert_eq!(cpu.i, 20);
}

//Fx29
#[test]
fn chip8_it_loads_i_from_vx() {
    let mut cpu = Cpu::new();
    cpu.i = 10;
    cpu.registers[0x1] = 0x9;
    cpu.run_opcode(0xF129);
    assert_eq!(cpu.i, 0x9 * 5);
}

//Fx33
#[test]
fn chip8_it_stores_bcd_representation() {
    let mut cpu = Cpu::new();
    cpu.i = 0x400;
    cpu.registers[0x1] = 223;
    cpu.run_opcode(0xF133);
    assert_eq!(cpu.memory[0x400], 2);
    assert_eq!(cpu.memory[0x401], 2);
    assert_eq!(cpu.memory[0x402], 3);
}

//Fx55
#[test]
fn chip8_it_stores_all_registers() {
    let mut cpu = Cpu::new();
    cpu.i = 0x400;
    cpu.registers[0x0] = 0x11;
    cpu.registers[0x1] = 0x22;
    cpu.registers[0x2] = 0x33;
    cpu.registers[0x3] = 0x44;
    cpu.run_opcode(0xF355);
    assert_eq!(cpu.memory[0x400], 0x11u8);
    assert_eq!(cpu.memory[0x401], 0x22u8);
    assert_eq!(cpu.memory[0x402], 0x33u8);
    assert_eq!(cpu.memory[0x403], 0x44u8);
}

//Fx65
#[test]
fn chip8_it_loads_all_registers() {
    let mut cpu = Cpu::new();
    cpu.i = 0x400;
    cpu.memory[0x400] = 0x11;
    cpu.memory[0x401] = 0x22;
    cpu.memory[0x402] = 0x33;
    cpu.memory[0x403] = 0x44;
    cpu.run_opcode(0xF365);
    assert_eq!(cpu.registers[0x0], 0x11u8);
    assert_eq!(cpu.registers[0x1], 0x22u8);
    assert_eq!(cpu.registers[0x2], 0x33u8);
    assert_eq!(cpu.registers[0x3], 0x44u8);
}
