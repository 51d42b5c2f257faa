use chip_ate::draw::{draw_screen, Color, DrawCommand};
use chip_ate::surface::{Rect, Surface};

const BLACK: Color = Color { r: 0, g: 0, b: 0 };
const WHITE: Color = Color { r: 255, g: 255, b: 255 };

#[test]
fn colours_are_black_and_white() {
    assert_eq!(Color::background(), BLACK);
    assert_eq!(Color::foreground(), WHITE);
}

#[test]
fn draw_screen_of_an_unlit_framebuffer_is_the_clearing_alone() {
    let surface = Surface::initialize(64, 32, 15).unwrap();
    let commands = draw_screen(&surface, &vec![false; 64 * 32]);
    assert_eq!(
        commands,
        vec![
            DrawCommand::SetDrawColor(BLACK),
            DrawCommand::Clear,
            DrawCommand::SetDrawColor(WHITE),
            DrawCommand::Present,
        ]
    );
}

#[test]
fn draw_screen_two_by_two_diagonal() {
    let surface = Surface::initialize(2, 2, 10).unwrap();
    let commands = draw_screen(&surface, &[true, false, false, true]);
    assert_eq!(
        commands,
        vec![
            DrawCommand::SetDrawColor(BLACK),
            DrawCommand::Clear,
            DrawCommand::SetDrawColor(WHITE),
            DrawCommand::FillRect(Rect { x: 0, y: 0, width: 10, height: 10 }),
            DrawCommand::FillRect(Rect { x: 10, y: 10, width: 10, height: 10 }),
            DrawCommand::Present,
        ]
    );
}

#[test]
fn draw_screen_clears_first_and_presents_once_at_the_end() {
    let surface = Surface::initialize(8, 4, 3).unwrap();
    let mut framebuffer = vec![false; 32];
    framebuffer[5] = true;
    framebuffer[17] = true;
    framebuffer[31] = true;
    let commands = draw_screen(&surface, &framebuffer);
    assert_eq!(commands.len(), 7);
    assert_eq!(commands[1], DrawCommand::Clear);
    let presents = commands.iter().filter(|c| **c == DrawCommand::Present).count();
    assert_eq!(presents, 1);
    assert_eq!(commands[commands.len() - 1], DrawCommand::Present);
    let fills: Vec<Rect> = commands
        .iter()
        .filter_map(|c| match c {
            DrawCommand::FillRect(rect) => Some(*rect),
            _ => None,
        })
        .collect();
    assert_eq!(fills, surface.render(&framebuffer));
}

fn show(commands: &[DrawCommand], width: usize, height: usize) -> Vec<Color> {
    let grey = Color { r: 7, g: 7, b: 7 };
    let mut pen = grey;
    let mut back = vec![grey; width * height];
    let mut shown = vec![grey; width * height];
    for command in commands {
        match command {
            DrawCommand::SetDrawColor(color) => pen = *color,
            DrawCommand::Clear => back = vec![pen; width * height],
            DrawCommand::FillRect(rect) => {
                for y in rect.y..rect.y + rect.height as i32 {
                    for x in rect.x..rect.x + rect.width as i32 {
                        back[y as usize * width + x as usize] = pen;
                    }
                }
            }
            DrawCommand::Present => shown = back.clone(),
        }
    }
    shown
}

#[test]
fn a_frame_shows_the_framebuffer_magnified() {
    let surface = Surface::initialize(3, 2, 4).unwrap();
    let framebuffer = [true, false, true, false, false, true];
    let commands = draw_screen(&surface, &framebuffer);
    let (width, height) = surface.window_size();
    let shown = show(&commands, width as usize, height as usize);
    for py in 0..height as usize {
        for px in 0..width as usize {
            let cell = (py / 4) * 3 + px / 4;
            let expected = if framebuffer[cell] { WHITE } else { BLACK };
            assert_eq!(shown[py * width as usize + px], expected);
        }
    }
}

#[test]
fn a_frame_of_an_unlit_framebuffer_shows_only_background() {
    let surface = Surface::initialize(3, 2, 4).unwrap();
    let commands = draw_screen(&surface, &[false; 6]);
    let shown = show(&commands, 12, 8);
    assert!(shown.iter().all(|c| *c == BLACK));
}
