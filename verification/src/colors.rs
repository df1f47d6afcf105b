use vstd::prelude::*;

verus! {

/// An RGB colour, used for tile backgrounds, glyph foregrounds and message
/// severities.  Plain data: equality is field-wise.
#[derive(Clone, Copy, Debug, PartialEq, Eq, Structural)]
pub struct Color {
    pub r: u8,
    pub g: u8,
    pub b: u8,
}

pub open spec fn spec_rgb(r: u8, g: u8, b: u8) -> Color {
    Color { r, g, b }
}

#[verifier::when_used_as_spec(spec_rgb)]
pub fn rgb(r: u8, g: u8, b: u8) -> (c: Color)
    ensures
        c == spec_rgb(r, g, b),
{
    Color { r, g, b }
}

pub open spec fn spec_white() -> Color {
    spec_rgb(255, 255, 255)
}

#[verifier::when_used_as_spec(spec_white)]
pub fn white() -> (c: Color)
    ensures
        c == spec_white(),
{
    rgb(255, 255, 255)
}

pub open spec fn spec_black() -> Color {
    spec_rgb(0, 0, 0)
}

#[verifier::when_used_as_spec(spec_black)]
pub fn black() -> (c: Color)
    ensures
        c == spec_black(),
{
    rgb(0, 0, 0)
}

pub open spec fn spec_red() -> Color {
    spec_rgb(255, 0, 0)
}

#[verifier::when_used_as_spec(spec_red)]
pub fn red() -> (c: Color)
    ensures
        c == spec_red(),
{
    rgb(255, 0, 0)
}

pub open spec fn spec_dark_red() -> Color {
    spec_rgb(191, 0, 0)
}

#[verifier::when_used_as_spec(spec_dark_red)]
pub fn dark_red() -> (c: Color)
    ensures
        c == spec_dark_red(),
{
    rgb(191, 0, 0)
}

pub open spec fn spec_darker_red() -> Color {
    spec_rgb(127, 0, 0)
}

#[verifier::when_used_as_spec(spec_darker_red)]
pub fn darker_red() -> (c: Color)
    ensures
        c == spec_darker_red(),
{
    rgb(127, 0, 0)
}

pub open spec fn spec_light_red() -> Color {
    spec_rgb(255, 115, 115)
}

#[verifier::when_used_as_spec(spec_light_red)]
pub fn light_red() -> (c: Color)
    ensures
        c == spec_light_red(),
{
    rgb(255, 115, 115)
}

pub open spec fn spec_orange() -> Color {
    spec_rgb(255, 127, 0)
}

#[verifier::when_used_as_spec(spec_orange)]
pub fn orange() -> (c: Color)
    ensures
        c == spec_orange(),
{
    rgb(255, 127, 0)
}

pub open spec fn spec_cyan() -> Color {
    spec_rgb(0, 255, 255)
}

#[verifier::when_used_as_spec(spec_cyan)]
pub fn cyan() -> (c: Color)
    ensures
        c == spec_cyan(),
{
    rgb(0, 255, 255)
}

pub open spec fn spec_desaturated_green() -> Color {
    spec_rgb(63, 127, 63)
}

#[verifier::when_used_as_spec(spec_desaturated_green)]
pub fn desaturated_green() -> (c: Color)
    ensures
        c == spec_desaturated_green(),
{
    rgb(63, 127, 63)
}

pub open spec fn spec_darker_green() -> Color {
    spec_rgb(0, 127, 0)
}

#[verifier::when_used_as_spec(spec_darker_green)]
pub fn darker_green() -> (c: Color)
    ensures
        c == spec_darker_green(),
{
    rgb(0, 127, 0)
}

pub open spec fn spec_light_grey() -> Color {
    spec_rgb(159, 159, 159)
}

#[verifier::when_used_as_spec(spec_light_grey)]
pub fn light_grey() -> (c: Color)
    ensures
        c == spec_light_grey(),
{
    rgb(159, 159, 159)
}

} // verus!
