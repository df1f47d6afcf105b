use vstd::prelude::*;

use crate::colors::Color;

verus! {

// Actual size of the window.
pub const SCREEN_WIDTH: i32 = 80;

pub const SCREEN_HEIGHT: i32 = 50;

// Size of the map.
pub const MAP_WIDTH: i32 = 80;

pub const MAP_HEIGHT: i32 = 43;

// Parameters for the dungeon generator.
pub const ROOM_MAX_SIZE: i32 = 10;

pub const ROOM_MIN_SIZE: i32 = 6;

pub const MAX_ROOMS: i32 = 30;

// Tile background colours for the renderer.
pub open spec fn spec_color_dark_wall() -> Color {
    crate::colors::spec_rgb(0, 0, 100)
}

#[verifier::when_used_as_spec(spec_color_dark_wall)]
pub fn color_dark_wall() -> (c: Color)
    ensures
        c == spec_color_dark_wall(),
{
    crate::colors::rgb(0, 0, 100)
}

pub open spec fn spec_color_light_wall() -> Color {
    crate::colors::spec_rgb(130, 110, 50)
}

#[verifier::when_used_as_spec(spec_color_light_wall)]
pub fn color_light_wall() -> (c: Color)
    ensures
        c == spec_color_light_wall(),
{
    crate::colors::rgb(130, 110, 50)
}

pub open spec fn spec_color_dark_ground() -> Color {
    crate::colors::spec_rgb(50, 50, 150)
}

#[verifier::when_used_as_spec(spec_color_dark_ground)]
pub fn color_dark_ground() -> (c: Color)
    ensures
        c == spec_color_dark_ground(),
{
    crate::colors::rgb(50, 50, 150)
}

pub open spec fn spec_color_light_ground() -> Color {
    crate::colors::spec_rgb(200, 180, 50)
}

#[verifier::when_used_as_spec(spec_color_light_ground)]
pub fn color_light_ground() -> (c: Color)
    ensures
        c == spec_color_light_ground(),
{
    crate::colors::rgb(200, 180, 50)
}

pub const FOV_LIGHT_WALLS: bool = true;

pub const TORCH_RADIUS: i32 = 10;

pub const MAX_ROOM_MONSTERS: i32 = 2;

/// The player always sits at index 0 of the entity list.
pub const PLAYER: usize = 0;

// Sizes and coordinates relevant for the GUI.
pub const BAR_WIDTH: i32 = 20;

pub const PANEL_HEIGHT: i32 = 7;

pub const PANEL_Y: i32 = SCREEN_HEIGHT - PANEL_HEIGHT;

pub const MSG_X: i32 = BAR_WIDTH + 2;

pub const MSG_WIDTH: i32 = SCREEN_WIDTH - BAR_WIDTH - 3;

pub const MSG_HEIGHT: i32 = PANEL_HEIGHT - 1;

} // verus!
