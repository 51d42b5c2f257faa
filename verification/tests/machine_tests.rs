use chip_ate::draw::{Color, DrawCommand};
use chip_ate::machine::{
    decode_frame, draw_machine, framebuffer_view, load_program, logical_size, machine_surface,
    power_on, window_surface, BYTES_PER_CELL, FRAME_BYTES, LOGICAL_HEIGHT, LOGICAL_WIDTH,
    PROGRAM_CAPACITY, SCALE, WINDOW_HEIGHT, WINDOW_WIDTH,
};
use chip_ate::surface::{Rect, Surface};

/// Sets the index register to the glyph of `0` and draws its five rows at the
/// upper left corner.
const DRAW_ZERO: [u8; 4] = [0xA0, 0x00, 0xD0, 0x05];

fn lit_indices(cells: &[bool]) -> Vec<usize> {
    (0..cells.len()).filter(|i| cells[*i]).collect()
}

#[test]
fn constants_agree_with_the_machine() {
    assert_eq!(LOGICAL_WIDTH as usize, chip8_core::FRAME_WIDTH);
    assert_eq!(LOGICAL_HEIGHT as usize, chip8_core::FRAME_HEIGHT);
    assert_eq!(FRAME_BYTES, chip8_core::FRAME_WIDTH * chip8_core::FRAME_HEIGHT * BYTES_PER_CELL);
    assert_eq!(PROGRAM_CAPACITY, 4096 - 0x200);
    let machine = power_on(1);
    assert_eq!(machine.frame().buffer.len(), FRAME_BYTES);
}

#[test]
fn logical_size_is_sixty_four_by_thirty_two() {
    let machine = power_on(0);
    assert_eq!(logical_size(&machine), (64, 32));
}

#[test]
fn a_new_machine_shows_nothing() {
    let machine = power_on(42);
    let cells = framebuffer_view(&machine);
    assert_eq!(cells.len(), 2048);
    assert!(cells.iter().all(|lit| !*lit));
}

#[test]
fn load_with_empty_image_does_not_crash() {
    let mut machine = power_on(7);
    load_program(&mut machine, &[]);
    let cells = framebuffer_view(&machine);
    assert_eq!(cells.len(), 2048);
    assert!(cells.iter().all(|lit| !*lit));
}

#[test]
fn load_accepts_an_image_that_fills_the_store() {
    let mut machine = power_on(7);
    load_program(&mut machine, &vec![0x12; PROGRAM_CAPACITY]);
    assert!(framebuffer_view(&machine).iter().all(|lit| !*lit));
}

#[test]
fn a_loaded_program_is_what_the_machine_runs() {
    let mut machine = power_on(3);
    load_program(&mut machine, &DRAW_ZERO);
    assert!(framebuffer_view(&machine).iter().all(|lit| !*lit));
    machine.step();
    machine.step();
    let cells = framebuffer_view(&machine);
    assert_eq!(
        lit_indices(&cells),
        vec![0, 1, 2, 3, 64, 67, 128, 131, 192, 195, 256, 257, 258, 259]
    );
}

#[test]
fn draw_machine_shows_the_glyph_scaled() {
    let mut machine = power_on(3);
    load_program(&mut machine, &DRAW_ZERO);
    machine.step();
    machine.step();
    let surface = machine_surface(&machine, 15).unwrap();
    assert_eq!(surface.window_size(), (960, 480));
    let commands = draw_machine(&machine, &surface).unwrap();
    assert_eq!(commands.len(), 3 + 14 + 1);
    assert_eq!(commands[0], DrawCommand::SetDrawColor(Color { r: 0, g: 0, b: 0 }));
    assert_eq!(commands[1], DrawCommand::Clear);
    assert_eq!(commands[2], DrawCommand::SetDrawColor(Color { r: 255, g: 255, b: 255 }));
    assert_eq!(commands[3], DrawCommand::FillRect(Rect { x: 0, y: 0, width: 15, height: 15 }));
    assert_eq!(commands[6], DrawCommand::FillRect(Rect { x: 45, y: 0, width: 15, height: 15 }));
    assert_eq!(commands[8], DrawCommand::FillRect(Rect { x: 45, y: 15, width: 15, height: 15 }));
    assert_eq!(commands[16], DrawCommand::FillRect(Rect { x: 45, y: 60, width: 15, height: 15 }));
    assert_eq!(commands[17], DrawCommand::Present);
}

#[test]
fn draw_machine_of_a_new_machine_is_the_clearing_alone() {
    let machine = power_on(9);
    let surface = machine_surface(&machine, 1).unwrap();
    let commands = draw_machine(&machine, &surface).unwrap();
    assert_eq!(
        commands,
        vec![
            DrawCommand::SetDrawColor(Color::background()),
            DrawCommand::Clear,
            DrawCommand::SetDrawColor(Color::foreground()),
            DrawCommand::Present,
        ]
    );
}

#[test]
fn draw_machine_refuses_a_surface_of_another_resolution() {
    let machine = power_on(9);
    assert!(draw_machine(&machine, &Surface::initialize(32, 64, 15).unwrap()).is_none());
    assert!(draw_machine(&machine, &Surface::initialize(64, 31, 15).unwrap()).is_none());
    assert!(draw_machine(&machine, &Surface::initialize(63, 32, 15).unwrap()).is_none());
    assert!(draw_machine(&machine, &Surface::initialize(64, 32, 2).unwrap()).is_some());
}

#[test]
fn machine_surface_is_some_for_presentable_scales() {
    let machine = power_on(0);
    assert!(machine_surface(&machine, 0).is_none());
    assert!(machine_surface(&machine, 1).is_some());
    assert!(machine_surface(&machine, 16_777_215).is_some());
    assert!(machine_surface(&machine, 16_777_216).is_none());
    assert!(machine_surface(&machine, u32::MAX).is_none());
    let surface = machine_surface(&machine, 15).unwrap();
    assert_eq!(surface.logical_width(), 64);
    assert_eq!(surface.logical_height(), 32);
    assert_eq!(surface.scale_factor(), 15);
}

#[test]
fn decode_frame_takes_four_bytes_per_cell() {
    let bytes = [
        255, 255, 255, 255, //
        0, 0, 0, 255, //
        0, 0, 0, 0, //
        255, 255, 255, 254, //
        254, 255, 255, 255, //
        255, 0, 255, 255, //
        255, 255, 255, 255,
    ];
    assert_eq!(
        decode_frame(&bytes),
        vec![true, false, false, false, false, false, true]
    );
}

#[test]
fn decode_frame_ignores_bytes_after_the_last_whole_cell() {
    assert_eq!(decode_frame(&[]), Vec::<bool>::new());
    assert_eq!(decode_frame(&[255, 255, 255]), Vec::<bool>::new());
    assert_eq!(decode_frame(&[255, 255, 255, 255, 255]), vec![true]);
    assert_eq!(decode_frame(&[255, 255, 255, 255, 255, 255, 255]), vec![true]);
}

#[test]
fn framebuffer_view_decodes_the_machines_frame() {
    let mut machine = power_on(5);
    load_program(&mut machine, &DRAW_ZERO);
    machine.step();
    machine.step();
    let frame = machine.frame();
    assert_eq!(framebuffer_view(&machine), decode_frame(&frame.buffer));
}

#[test]
fn the_window_is_the_display_at_scale_fifteen() {
    assert_eq!(SCALE, 15);
    assert_eq!(WINDOW_WIDTH, 960);
    assert_eq!(WINDOW_HEIGHT, 480);
    let machine = power_on(0);
    let surface = window_surface(&machine);
    assert_eq!(surface.window_size(), (WINDOW_WIDTH, WINDOW_HEIGHT));
    assert_eq!(surface.logical_width(), LOGICAL_WIDTH);
    assert_eq!(surface.logical_height(), LOGICAL_HEIGHT);
    assert_eq!(surface.scale_factor(), SCALE);
}
