//! Drawing one frame: the commands that show a framebuffer on a presentation
//! surface, and what those commands leave on the display.

use crate::surface::{painted, Rect, Surface};
use vstd::prelude::*;

verus! {

/// An opaque colour, by its red, green and blue parts.
#[derive(Clone, Copy, Debug, PartialEq, Eq, Structural)]
pub struct Color {
    pub r: u8,
    pub g: u8,
    pub b: u8,
}

/// The colour of unlit cells and of everything around them: black.
pub open spec fn background_color() -> Color {
    Color { r: 0, g: 0, b: 0 }
}

/// The colour of lit cells: white.
pub open spec fn foreground_color() -> Color {
    Color { r: 255, g: 255, b: 255 }
}

impl Color {
    /// The colour of unlit cells: black.
    pub fn background() -> (color: Color)
        ensures
            color == background_color(),
    {
        Color { r: 0, g: 0, b: 0 }
    }

    /// The colour of lit cells: white.
    pub fn foreground() -> (color: Color)
        ensures
            color == foreground_color(),
    {
        Color { r: 255, g: 255, b: 255 }
    }
}

/// One primitive operation on the drawable surface.
#[derive(Clone, Copy, Debug, PartialEq, Eq, Structural)]
pub enum DrawCommand {
    /// Selects the colour that `Clear` and `FillRect` paint with.
    SetDrawColor(Color),
    /// Paints the whole back buffer in the selected colour.
    Clear,
    /// Paints one rectangle of the back buffer in the selected colour.
    FillRect(Rect),
    /// Publishes the back buffer to the display.
    Present,
}

/// The commands of one frame: clear to the background, fill the square of
/// every lit cell in the foreground, in the order of the cells, then present
/// once.
pub open spec fn frame_commands(surface: Surface, framebuffer: Seq<bool>) -> Seq<DrawCommand> {
    seq![
        DrawCommand::SetDrawColor(background_color()),
        DrawCommand::Clear,
        DrawCommand::SetDrawColor(foreground_color()),
    ] + surface.rendered(framebuffer).map_values(|rect: Rect| DrawCommand::FillRect(rect))
        + seq![DrawCommand::Present]
}

/// The commands that show `framebuffer` on `surface`: the clearing of the back
/// buffer comes first, the rectangles of the lit cells follow, and the one
/// `Present` comes last.
pub fn draw_screen(surface: &Surface, framebuffer: &[bool]) -> (commands: Vec<DrawCommand>)
    requires
        framebuffer@.len() == surface.cells(),
    ensures
        commands@ == frame_commands(*surface, framebuffer@),
{
    let rects = surface.render(framebuffer);
    let mut commands: Vec<DrawCommand> = Vec::new();
    commands.push(DrawCommand::SetDrawColor(Color::background()));
    commands.push(DrawCommand::Clear);
    commands.push(DrawCommand::SetDrawColor(Color::foreground()));
    let ghost head = commands@;
    let mut next: usize = 0;
    while next < rects.len()
        invariant
            next <= rects@.len(),
            commands@ == head + rects@.take(next as int).map_values(
                |rect: Rect| DrawCommand::FillRect(rect),
            ),
        decreases rects@.len() - next,
    {
        commands.push(DrawCommand::FillRect(rects[next]));
        proof {
            assert(rects@.take(next + 1) == rects@.take(next as int).push(rects@[next as int]));
        }
        next += 1;
    }
    proof {
        assert(rects@.take(next as int) == rects@);
    }
    commands.push(DrawCommand::Present);
    commands
}

/// What the display holds for one physical pixel: the selected colour, the
/// pixel's colour in the back buffer, and the colour it shows.
pub struct PixelState {
    pub pen: Color,
    pub back: Color,
    pub shown: Color,
}

/// The effect of one command on the pixel `(px, py)`.
pub open spec fn apply(command: DrawCommand, state: PixelState, px: int, py: int) -> PixelState {
    match command {
        DrawCommand::SetDrawColor(color) => PixelState { pen: color, ..state },
        DrawCommand::Clear => PixelState { back: state.pen, ..state },
        DrawCommand::FillRect(rect) => if rect.covers(px, py) {
            PixelState { back: state.pen, ..state }
        } else {
            state
        },
        DrawCommand::Present => PixelState { shown: state.back, ..state },
    }
}

/// The effect of a sequence of commands, first to last, on the pixel `(px, py)`.
pub open spec fn apply_all(commands: Seq<DrawCommand>, state: PixelState, px: int, py: int) -> PixelState
    decreases commands.len(),
{
    if commands.len() == 0 {
        state
    } else {
        apply(commands.last(), apply_all(commands.drop_last(), state, px, py), px, py)
    }
}

/// Running two sequences of commands one after the other is running their
/// concatenation.
pub proof fn lemma_apply_all_concat(
    first: Seq<DrawCommand>,
    second: Seq<DrawCommand>,
    state: PixelState,
    px: int,
    py: int,
)
    ensures
        apply_all(first + second, state, px, py) == apply_all(
            second,
            apply_all(first, state, px, py),
            px,
            py,
        ),
    decreases second.len(),
{
    if second.len() == 0 {
        assert(first + second == first);
    } else {
        assert((first + second).drop_last() == first + second.drop_last());
        lemma_apply_all_concat(first, second.drop_last(), state, px, py);
    }
}

/// Filling rectangles paints the selected colour on the pixels they hold and
/// leaves every other pixel, the selected colour and the display as they were.
pub proof fn lemma_apply_fills(rects: Seq<Rect>, state: PixelState, px: int, py: int)
    ensures
        apply_all(rects.map_values(|rect: Rect| DrawCommand::FillRect(rect)), state, px, py) == (PixelState {
            back: if painted(rects, px, py) {
                state.pen
            } else {
                state.back
            },
            ..state
        }),
    decreases rects.len(),
{
    let fills = rects.map_values(|rect: Rect| DrawCommand::FillRect(rect));
    if rects.len() > 0 {
        let earlier = rects.drop_last();
        assert(fills.drop_last() == earlier.map_values(|rect: Rect| DrawCommand::FillRect(rect)));
        lemma_apply_fills(earlier, state, px, py);
        if painted(earlier, px, py) {
            let k = choose|k: int| 0 <= k < earlier.len() && #[trigger] earlier[k].covers(px, py);
            assert(rects[k].covers(px, py));
        }
        if rects.last().covers(px, py) {
            assert(rects[rects.len() - 1].covers(px, py));
        }
        if painted(rects, px, py) {
            let k = choose|k: int| 0 <= k < rects.len() && #[trigger] rects[k].covers(px, py);
            if k < earlier.len() {
                assert(earlier[k].covers(px, py));
            }
        }
    }
}

/// Nothing shows before it is presented: commands without a `Present` among
/// them leave the display as it was.
pub proof fn lemma_hidden_until_present(commands: Seq<DrawCommand>, state: PixelState, px: int, py: int)
    requires
        forall|k: int| 0 <= k < commands.len() ==> commands[k] != DrawCommand::Present,
    ensures
        apply_all(commands, state, px, py).shown == state.shown,
    decreases commands.len(),
{
    if commands.len() > 0 {
        lemma_hidden_until_present(commands.drop_last(), state, px, py);
    }
}

/// What a frame shows: whatever the display held before, after the commands of
/// a frame a pixel of the window shows the foreground if the cell it belongs
/// to is lit and the background if not, and every pixel outside the window
/// shows the background.
pub proof fn lemma_frame_picture(
    surface: Surface,
    framebuffer: Seq<bool>,
    before: PixelState,
    px: int,
    py: int,
)
    requires
        surface.valid(),
        framebuffer.len() == surface.cells(),
    ensures
        apply_all(frame_commands(surface, framebuffer), before, px, py).shown == (if surface.in_window(px, py)
            && framebuffer[surface.cell_at(px, py)] {
            foreground_color()
        } else {
            background_color()
        }),
{
    let head = seq![
        DrawCommand::SetDrawColor(background_color()),
        DrawCommand::Clear,
        DrawCommand::SetDrawColor(foreground_color()),
    ];
    let rects = surface.rendered(framebuffer);
    let fills = rects.map_values(|rect: Rect| DrawCommand::FillRect(rect));
    let tail = seq![DrawCommand::Present];
    let cleared = apply_all(head, before, px, py);
    assert(cleared.pen == foreground_color() && cleared.back == background_color()) by {
        reveal_with_fuel(apply_all, 4);
        assert(head.drop_last() == seq![
            DrawCommand::SetDrawColor(background_color()),
            DrawCommand::Clear,
        ]);
        assert(head.drop_last().drop_last() == seq![DrawCommand::SetDrawColor(background_color())]);
        assert(head.drop_last().drop_last().drop_last() == Seq::<DrawCommand>::empty());
    }
    let filled = apply_all(fills, cleared, px, py);
    lemma_apply_fills(rects, cleared, px, py);
    surface.lemma_render_magnifies(framebuffer, px, py);
    lemma_apply_all_concat(head, fills, before, px, py);
    lemma_apply_all_concat(head + fills, tail, before, px, py);
    assert(apply_all(tail, filled, px, py).shown == filled.back) by {
        reveal_with_fuel(apply_all, 2);
        assert(tail.drop_last() == Seq::<DrawCommand>::empty());
    }
}

/// A frame of an entirely unlit framebuffer is the clearing alone: its
/// commands fill no rectangle, and every pixel shows the background.
pub proof fn lemma_unlit_frame_is_clear(
    surface: Surface,
    framebuffer: Seq<bool>,
    before: PixelState,
    px: int,
    py: int,
)
    requires
        surface.valid(),
        framebuffer.len() == surface.cells(),
        forall|index: int| 0 <= index < framebuffer.len() ==> !framebuffer[index],
    ensures
        frame_commands(surface, framebuffer) == seq![
            DrawCommand::SetDrawColor(background_color()),
            DrawCommand::Clear,
            DrawCommand::SetDrawColor(foreground_color()),
            DrawCommand::Present,
        ],
        apply_all(frame_commands(surface, framebuffer), before, px, py).shown == background_color(),
{
    surface.lemma_unlit_renders_nothing(framebuffer);
    lemma_frame_picture(surface, framebuffer, before, px, py);
    if surface.in_window(px, py) {
        surface.lemma_pixel_cell(px, py);
    }
}

} // verus!
