//! The CHIP-8 machine as the front end sees it: a program store to load an
//! image into, and a display buffer to read the framebuffer from. The machine
//! itself is `chip8_core::Chip8`; nothing here looks inside it.

use crate::draw::{draw_screen, frame_commands, DrawCommand};
use crate::surface::Surface;
use chip8_core::Chip8;
use vstd::prelude::*;

verus! {

/// The machine of `chip8_core`, carried through as an opaque value.
#[verifier::external_type_specification]
#[verifier::external_body]
pub struct ExChip8(chip8_core::Chip8);

/// Number of cells in a row of the machine's display.
pub const LOGICAL_WIDTH: u32 = 64;

/// Number of rows of the machine's display.
pub const LOGICAL_HEIGHT: u32 = 32;

/// Number of bytes that the display buffer holds for one cell.
pub const BYTES_PER_CELL: usize = 4;

/// Number of bytes of the machine's display buffer.
pub const FRAME_BYTES: usize = 8192;

/// Number of bytes of the machine's program store: its memory from the
/// address where programs start to the end.
pub const PROGRAM_CAPACITY: usize = 3584;

/// The scale at which the front end shows the machine: a cell is a square of
/// fifteen pixels.
pub const SCALE: u32 = 15;

/// Physical width of the front end's window.
pub const WINDOW_WIDTH: u32 = LOGICAL_WIDTH * SCALE;

/// Physical height of the front end's window.
pub const WINDOW_HEIGHT: u32 = LOGICAL_HEIGHT * SCALE;

/// The bytes of a machine's display buffer: four for each cell, row by row.
pub uninterp spec fn display_buffer(machine: Chip8) -> Seq<u8>;

/// The bytes of a machine's program store.
pub uninterp spec fn program_store(machine: Chip8) -> Seq<u8>;

/// Calls `Chip8::new`. The new machine's display buffer and program store are
/// all zero: the machine's constructor fills its memory and its frame with
/// zeros and writes only the font, which lies below the program store.
#[verifier::external_body]
fn core_new(seed: u32) -> (machine: Chip8)
    ensures
        display_buffer(machine) == Seq::new(FRAME_BYTES as nat, |i: int| 0u8),
        program_store(machine) == Seq::new(PROGRAM_CAPACITY as nat, |i: int| 0u8),
{
    Chip8::new(seed)
}

/// Calls `Chip8::load`, which copies the image to the start of the program
/// store and touches nothing else. It panics on an image longer than the
/// store, which the precondition leaves out.
#[verifier::external_body]
fn core_load(machine: &mut Chip8, image: &[u8])
    requires
        image@.len() <= PROGRAM_CAPACITY,
    ensures
        program_store(*final(machine)) == image@ + program_store(*old(machine)).skip(
            image@.len() as int,
        ),
        display_buffer(*final(machine)) == display_buffer(*old(machine)),
{
    machine.load(image)
}

/// Calls `Chip8::frame`, which returns a copy of the display buffer, an array
/// of `FRAME_BYTES` bytes.
#[verifier::external_body]
fn core_frame(machine: &Chip8) -> (bytes: Vec<u8>)
    ensures
        bytes@ == display_buffer(*machine),
        bytes@.len() == FRAME_BYTES,
{
    machine.frame().buffer.to_vec()
}

/// Calls `Chip8::frame_width`, which returns the crate's constant 64.
#[verifier::external_body]
fn core_frame_width(machine: &Chip8) -> (width: u32)
    ensures
        width == LOGICAL_WIDTH,
{
    machine.frame_width()
}

/// Calls `Chip8::frame_height`, which returns the crate's constant 32.
#[verifier::external_body]
fn core_frame_height(machine: &Chip8) -> (height: u32)
    ensures
        height == LOGICAL_HEIGHT,
{
    machine.frame_height()
}

/// Whether the display buffer holds a lit cell at `cell`: all four of the
/// cell's bytes are 255, which is how the machine writes a lit cell.
pub open spec fn cell_lit(bytes: Seq<u8>, cell: int) -> bool {
    &&& bytes[BYTES_PER_CELL * cell] == 255
    &&& bytes[BYTES_PER_CELL * cell + 1] == 255
    &&& bytes[BYTES_PER_CELL * cell + 2] == 255
    &&& bytes[BYTES_PER_CELL * cell + 3] == 255
}

/// The framebuffer that a display buffer stands for: one cell for every four
/// bytes, lit where all four are 255.
pub open spec fn decoded(bytes: Seq<u8>) -> Seq<bool> {
    Seq::new((bytes.len() / BYTES_PER_CELL as nat) as nat, |cell: int| cell_lit(bytes, cell))
}

/// Decodes a display buffer into a framebuffer of lit and unlit cells. Bytes
/// after the last whole cell are ignored.
pub fn decode_frame(bytes: &[u8]) -> (cells: Vec<bool>)
    ensures
        cells@ == decoded(bytes@),
{
    let count: usize = bytes.len() / BYTES_PER_CELL;
    let mut cells: Vec<bool> = Vec::with_capacity(count);
    let mut cell: usize = 0;
    while cell < count
        invariant
            BYTES_PER_CELL == 4,
            bytes@.len() <= usize::MAX,
            count == bytes@.len() / 4,
            cell <= count,
            cells@.len() == cell,
            forall|j: int| 0 <= j < cell ==> cells@[j] == cell_lit(bytes@, j),
        decreases count - cell,
    {
        let at: usize = 4 * cell;
        let lit: bool = bytes[at] == 255 && bytes[at + 1] == 255 && bytes[at + 2] == 255 && bytes[at + 3]
            == 255;
        cells.push(lit);
        cell += 1;
    }
    cells
}

/// A machine in its initial state, with the given seed for its random
/// numbers: nothing is loaded and no cell is lit.
pub fn power_on(seed: u32) -> (machine: Chip8)
    ensures
        program_store(machine) == Seq::new(PROGRAM_CAPACITY as nat, |i: int| 0u8),
        display_buffer(machine) == Seq::new(FRAME_BYTES as nat, |i: int| 0u8),
        decoded(display_buffer(machine)) == Seq::new(
            (LOGICAL_WIDTH * LOGICAL_HEIGHT) as nat,
            |cell: int| false,
        ),
{
    core_new(seed)
}

/// Hands a program image to the machine, unchanged: the image becomes the
/// start of the program store, the rest of the store and the display stay as
/// they were. An empty image leaves the whole store as it was.
pub fn load_program(machine: &mut Chip8, image: &[u8])
    requires
        image@.len() <= PROGRAM_CAPACITY,
    ensures
        program_store(*final(machine)) == image@ + program_store(*old(machine)).skip(
            image@.len() as int,
        ),
        image@.len() == 0 ==> program_store(*final(machine)) == program_store(*old(machine)),
        display_buffer(*final(machine)) == display_buffer(*old(machine)),
{
    core_load(machine, image)
}

/// The logical resolution of the machine's display, width first.
pub fn logical_size(machine: &Chip8) -> (size: (u32, u32))
    ensures
        size == (LOGICAL_WIDTH, LOGICAL_HEIGHT),
{
    (core_frame_width(machine), core_frame_height(machine))
}

/// The machine's current framebuffer: `LOGICAL_WIDTH * LOGICAL_HEIGHT` cells,
/// row by row, decoded from its display buffer.
pub fn framebuffer_view(machine: &Chip8) -> (cells: Vec<bool>)
    ensures
        cells@ == decoded(display_buffer(*machine)),
        cells@.len() == LOGICAL_WIDTH * LOGICAL_HEIGHT,
{
    let bytes = core_frame(machine);
    decode_frame(bytes.as_slice())
}

/// A surface for the machine's display at the given scale, with the logical
/// resolution that the machine reports. `None` exactly when that resolution
/// at that scale is not presentable.
pub fn machine_surface(machine: &Chip8, scale: u32) -> (surface: Option<Surface>)
    ensures
        surface.is_some() <==> 1 <= scale && LOGICAL_WIDTH * scale <= crate::surface::MAX_EXTENT,
        surface matches Some(s) ==> {
            &&& s.valid()
            &&& s.width() == LOGICAL_WIDTH
            &&& s.height() == LOGICAL_HEIGHT
            &&& s.scale() == scale
            &&& s.cells() == LOGICAL_WIDTH * LOGICAL_HEIGHT
        },
{
    let (width, height) = logical_size(machine);
    Surface::initialize(width, height, scale)
}

/// The surface of the front end's window: the machine's logical resolution at
/// `SCALE`, which makes a window of `WINDOW_WIDTH` by `WINDOW_HEIGHT` pixels.
pub fn window_surface(machine: &Chip8) -> (surface: Surface)
    ensures
        surface.valid(),
        surface.width() == LOGICAL_WIDTH,
        surface.height() == LOGICAL_HEIGHT,
        surface.scale() == SCALE,
        surface.cells() == LOGICAL_WIDTH * LOGICAL_HEIGHT,
        surface.width() * surface.scale() == WINDOW_WIDTH,
        surface.height() * surface.scale() == WINDOW_HEIGHT,
{
    machine_surface(machine, SCALE).unwrap()
}

/// The commands that show the machine's current framebuffer on `surface`.
/// `None` exactly when the surface does not have the machine's logical
/// resolution.
pub fn draw_machine(machine: &Chip8, surface: &Surface) -> (commands: Option<Vec<DrawCommand>>)
    ensures
        commands.is_some() <==> surface.width() == LOGICAL_WIDTH && surface.height() == LOGICAL_HEIGHT,
        commands matches Some(shown) ==> shown@ == frame_commands(
            *surface,
            decoded(display_buffer(*machine)),
        ),
{
    if surface.logical_width() == LOGICAL_WIDTH && surface.logical_height() == LOGICAL_HEIGHT {
        let cells = framebuffer_view(machine);
        Some(draw_screen(surface, cells.as_slice()))
    } else {
        None
    }
}

} // verus!
