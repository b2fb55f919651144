use chip8_core::Chip8State;
use chip8_core::run::RunEvent;
use chip8_core::run::RunState;
use chip8_core::run::run_transition;
use chip8_core::state::Fault;
use chip8_core::state::StepOutcome;
use chip8_core::state::ErrorKind;
use chip8_core::state::get_codes;
use chip8_core::timer::TICK_NANOS;
use chip8_core::timer::ticks_elapsed;

#[test]
fn power_on_state_has_font_and_program_counter() {
    let m = Chip8State::new();
    assert_eq!(m.pc, 0x200);
    assert_eq!(m.i, 0);
    assert_eq!(m.stack.len(), 0);
    assert_eq!(m.memory.len(), 4096);
    assert_eq!(m.memory[0], 0xF0);
    assert_eq!(m.memory[4], 0xF0);
    assert_eq!(m.memory[5], 0x20);
    assert_eq!(m.memory[79], 0x80);
    assert_eq!(m.memory[80], 0x00);
    assert_eq!(m.memory[0x200], 0x00);
    assert!(!m.fb_dirty);
    assert!(!m.shift_from_vy);
    assert!(m.bulk_advances_i);
    assert!(!m.sprite_wrap);
}

#[test]
fn load_rom_copies_program_to_program_start() {
    let mut m = Chip8State::new();
    m.load_rom(&vec![0xAB, 0xCD, 0xEF]).unwrap();
    assert_eq!(m.memory[0x200], 0xAB);
    assert_eq!(m.memory[0x201], 0xCD);
    assert_eq!(m.memory[0x202], 0xEF);
    assert_eq!(m.memory[0x203], 0x00);
    assert_eq!(m.memory[0x1FF], 0x00);
}

#[test]
fn load_rom_of_maximum_size_fits() {
    let mut m = Chip8State::new();
    let rom = vec![0x55u8; 3584];
    assert!(m.load_rom(&rom).is_ok());
    assert_eq!(m.memory[4095], 0x55);
}

#[test]
fn load_rom_too_large_is_rejected_unchanged() {
    let mut m = Chip8State::new();
    let rom = vec![0x55u8; 3585];
    let err = m.load_rom(&rom).unwrap_err();
    assert_eq!(err.kind, ErrorKind::RomTooLarge);
    assert_eq!(m.memory[0x200], 0x00);
}

#[test]
fn get_codes_reads_the_two_instruction_bytes() {
    let mut m = Chip8State::new();
    m.load_rom(&vec![0x12, 0x34]).unwrap();
    let (hi, lo) = get_codes(&m.memory, 0x200);
    assert_eq!(hi, 0x12);
    assert_eq!(lo, 0x34);
}

#[test]
fn tick_decrements_each_running_timer_once() {
    let mut m = Chip8State::new();
    m.delay = 2;
    m.sound = 1;
    m.tick();
    assert_eq!(m.delay, 1);
    assert_eq!(m.sound, 0);
    m.tick();
    assert_eq!(m.delay, 0);
    assert_eq!(m.sound, 0);
    m.tick();
    assert_eq!(m.delay, 0);
    assert_eq!(m.sound, 0);
}

#[test]
fn sound_active_tracks_sound_timer() {
    let mut m = Chip8State::new();
    assert!(!m.sound_active());
    m.sound = 1;
    assert!(m.sound_active());
    m.tick();
    assert!(!m.sound_active());
}

#[test]
fn ticks_elapsed_counts_one_tick_per_period() {
    assert_eq!(ticks_elapsed(0, 0), (0, 0));
    assert_eq!(ticks_elapsed(0, TICK_NANOS), (1, 0));
    assert_eq!(ticks_elapsed(0, TICK_NANOS - 1), (0, TICK_NANOS - 1));
    assert_eq!(ticks_elapsed(TICK_NANOS - 1, 1), (1, 0));
    assert_eq!(ticks_elapsed(0, 2 * TICK_NANOS + 5), (2, 5));
    assert_eq!(ticks_elapsed(3, 1_000_000_000), (59, 1_000_000_003 - 59 * TICK_NANOS));
}

#[test]
fn keys_are_recorded_and_read_back() {
    let mut m = Chip8State::new();
    assert!(!m.is_pressed(0x7));
    m.set_key(0x7, true);
    assert!(m.is_pressed(0x7));
    assert!(!m.is_pressed(0x6));
    m.set_key(0x7, false);
    assert!(!m.is_pressed(0x7));
}

#[test]
fn run_state_follows_step_outcomes() {
    let s = run_transition(RunState::Running, RunEvent::Stepped(StepOutcome::Continuing));
    assert_eq!(s, RunState::Running);
    let s = run_transition(s, RunEvent::Stepped(StepOutcome::BlockedOnKey(5)));
    assert_eq!(s, RunState::Blocked(5));
    let s = run_transition(s, RunEvent::Stepped(StepOutcome::Continuing));
    assert_eq!(s, RunState::Blocked(5));
    let s = run_transition(s, RunEvent::KeyPressed(0xB));
    assert_eq!(s, RunState::Running);
    let fault = Fault { kind: ErrorKind::InvalidOpcode, opcode: 0xFFFF, addr: 0x200 };
    let s = run_transition(s, RunEvent::Stepped(StepOutcome::Halted(fault)));
    assert_eq!(s, RunState::Halted(Some(fault)));
    let s = run_transition(s, RunEvent::KeyPressed(1));
    assert_eq!(s, RunState::Halted(Some(fault)));
}

#[test]
fn stop_request_halts_any_live_state() {
    let s = run_transition(RunState::Running, RunEvent::StopRequested);
    assert_eq!(s, RunState::Halted(None));
    let s2 = run_transition(RunState::Blocked(3), RunEvent::StopRequested);
    assert_eq!(s2, RunState::Halted(None));
    let s3 = run_transition(s, RunEvent::StopRequested);
    assert_eq!(s3, RunState::Halted(None));
}
