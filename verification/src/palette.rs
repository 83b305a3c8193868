//! The cyclic palette: which color a capture gets, and what a painted text
//! looks like.

use crate::text::bytes_of;
use crate::text::replaced;
use vstd::prelude::*;

verus! {

/// A place in the palette.
#[derive(Clone, Copy, Debug, PartialEq, Eq, Structural)]
pub enum ColorSlot {
    Blue,
    Green,
    Red,
    Black,
}

/// The number of colors in the palette.
pub const PALETTE_SIZE: usize = 4;

/// The color at a position: the palette, taken cyclically.
pub open spec fn slot_at(position: int) -> ColorSlot {
    let place = position % (PALETTE_SIZE as int);
    if place == 0 {
        ColorSlot::Blue
    } else if place == 1 {
        ColorSlot::Green
    } else if place == 2 {
        ColorSlot::Red
    } else {
        ColorSlot::Black
    }
}

/// The color of the capture at `position`.
pub fn color_slot(position: usize) -> (slot: ColorSlot)
    ensures
        slot == slot_at(position as int),
{
    let place: usize = position % PALETTE_SIZE;
    if place == 0 {
        ColorSlot::Blue
    } else if place == 1 {
        ColorSlot::Green
    } else if place == 2 {
        ColorSlot::Red
    } else {
        ColorSlot::Black
    }
}

/// The color depends on the position modulo the palette size alone: two
/// positions that differ by a multiple of the palette size share a color.
pub proof fn lemma_color_cycle(position: nat, rounds: nat)
    ensures
        slot_at(position as int) == slot_at(position + rounds * PALETTE_SIZE),
{
    assert((position + rounds * 4) % 4 == position % 4) by (nonlinear_arith);
}

/// Two positions with the same remainder share a color.
pub proof fn lemma_color_by_remainder(a: nat, b: nat)
    requires
        a % (PALETTE_SIZE as nat) == b % (PALETTE_SIZE as nat),
    ensures
        slot_at(a as int) == slot_at(b as int),
{
}

/// The digits by which a terminal knows the foreground color of a slot.
pub open spec fn color_code(slot: ColorSlot) -> Seq<u8> {
    match slot {
        ColorSlot::Blue => seq![0x33u8, 0x34u8],
        ColorSlot::Green => seq![0x33u8, 0x32u8],
        ColorSlot::Red => seq![0x33u8, 0x31u8],
        ColorSlot::Black => seq![0x33u8, 0x30u8],
    }
}

/// The control sequence that switches a terminal to the color of a slot:
/// `ESC [`, the color's digits, `m`.
pub open spec fn style_on(slot: ColorSlot) -> Seq<u8> {
    seq![0x1bu8, 0x5bu8] + color_code(slot) + seq![0x6du8]
}

/// The control sequence that switches all styling off: `ESC [ 0 m`.
pub open spec fn style_off() -> Seq<u8> {
    seq![0x1bu8, 0x5bu8, 0x30u8, 0x6du8]
}

/// A text in the color of a slot: switched on before it, switched off
/// behind it, and switched on again after every switch-off that the text
/// itself holds.
pub open spec fn colorized(text: Seq<u8>, slot: ColorSlot) -> Seq<u8> {
    style_on(slot) + replaced(text, style_off(), style_off() + style_on(slot)) + style_off()
}

/// A text as the painter hands it back: colorized, or unchanged where the
/// painter's colors are switched off.
pub open spec fn tinted(text: Seq<u8>, slot: ColorSlot, on: bool) -> Seq<u8> {
    if on {
        colorized(text, slot)
    } else {
        text
    }
}

/// Paints a text in the color of a slot.
///
/// Calls `colored::Colorize::color` on the text and formats the
/// `ColoredString` through its `Display`. That crate decides process-wide,
/// from the environment or an override, whether colors are written at all:
/// where they are, the result is the text between the slot's control
/// sequence and the reset, with the control sequence repeated after every
/// reset inside the text; where they are not, it is the text itself. Which
/// of the two a call gives is not known here.
#[verifier::external_body]
pub(crate) fn paint(text: &str, slot: ColorSlot) -> (painted: String)
    ensures
        bytes_of(painted@) == bytes_of(text@) || bytes_of(painted@) == colorized(
            bytes_of(text@),
            slot,
        ),
{
    let color = match slot {
        ColorSlot::Blue => colored::Color::Blue,
        ColorSlot::Green => colored::Color::Green,
        ColorSlot::Red => colored::Color::Red,
        ColorSlot::Black => colored::Color::Black,
    };
    colored::Colorize::color(text, color).to_string()
}

} // verus!
