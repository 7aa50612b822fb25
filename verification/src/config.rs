//! The user's settings for the window: colours and sizes.

use vstd::prelude::*;

verus! {

/// A colour, with or without an alpha channel.
#[derive(Debug, Copy, Clone, PartialEq, Eq, Structural)]
pub enum ColorConfig {
    RGB(u8, u8, u8),
    RGBA(u8, u8, u8, u8),
}

/// The settings of the picker's window.
#[derive(Debug)]
pub struct Config {
    pub background: ColorConfig,
    pub cursor: ColorConfig,
    pub font_size: u16,
    pub selected_color: ColorConfig,
    pub unselected_color: ColorConfig,
    pub input_color: ColorConfig,
    pub width: i32,
    pub height: i32,
}

impl Default for Config {
    /// The settings used when the user has none.
    fn default() -> (config: Self)
        ensures
            config.background == ColorConfig::RGBA(60, 56, 42, 80),
            config.cursor == ColorConfig::RGB(20, 200, 29),
            config.font_size == 24,
            config.selected_color == ColorConfig::RGB(230, 230, 230),
            config.unselected_color == ColorConfig::RGBA(230, 230, 230, 70),
            config.input_color == ColorConfig::RGB(255, 255, 255),
            config.width == 1000,
            config.height == 230,
    {
        Config {
            background: ColorConfig::RGBA(60, 56, 42, 80),
            cursor: ColorConfig::RGB(20, 200, 29),
            font_size: 24,
            selected_color: ColorConfig::RGB(230, 230, 230),
            unselected_color: ColorConfig::RGBA(230, 230, 230, 70),
            input_color: ColorConfig::RGB(255, 255, 255),
            width: 1000,
            height: 230,
        }
    }
}

} // verus!
