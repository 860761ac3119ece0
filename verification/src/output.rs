//! The one display that the compositor drives.

use vstd::prelude::*;
use crate::window::Position;

verus! {

/// How the picture is turned or mirrored on its way to the display.
#[derive(Clone, Copy, Debug, PartialEq, Eq, Structural)]
pub enum Transform {
    Normal,
    Rotate90,
    Rotate180,
    Rotate270,
    Flipped,
    Flipped90,
    Flipped180,
    Flipped270,
}

/// A resolution with a refresh rate.
#[derive(Clone, Copy, Debug, PartialEq, Eq, Structural)]
pub struct Mode {
    pub width: i32,
    pub height: i32,
    /// Refresh rate in millihertz: 60000 for 60 Hz.
    pub refresh_mhz: i32,
}

/// How the subpixels of the display are laid out.
#[derive(Clone, Copy, Debug, PartialEq, Eq, Structural)]
pub enum Subpixel {
    Unknown,
    Absent,
    HorizontalRgb,
    HorizontalBgr,
    VerticalRgb,
    VerticalBgr,
}

/// What the display is physically.
#[derive(Clone, Copy, Debug, PartialEq, Eq, Structural)]
pub struct Physical {
    pub width_mm: i32,
    pub height_mm: i32,
    pub subpixel: Subpixel,
}

/// What is advertised of the display to connecting clients.
#[derive(Clone, Copy, Debug, PartialEq, Eq, Structural)]
pub struct Output {
    pub physical: Physical,
    /// The mode in use; none until one is set.
    pub mode: Option<Mode>,
    /// The mode that clients are told to prefer.
    pub preferred: Option<Mode>,
    pub transform: Transform,
    pub scale: i32,
    pub location: Position,
}

impl Output {
    /// The output as it is created: no mode yet, shown as it is, unscaled,
    /// at the origin.
    pub open spec fn created(physical: Physical) -> Output {
        Output {
            physical,
            mode: None,
            preferred: None,
            transform: Transform::Normal,
            scale: 1,
            location: Position { x: 0, y: 0 },
        }
    }

    /// The output with each given part replaced and each part not given left
    /// as it is.
    pub open spec fn changed(
        self,
        mode: Option<Mode>,
        transform: Option<Transform>,
        scale: Option<i32>,
        location: Option<Position>,
    ) -> Output {
        Output {
            mode: if mode is Some {
                mode
            } else {
                self.mode
            },
            transform: if transform is Some {
                transform->0
            } else {
                self.transform
            },
            scale: if scale is Some {
                scale->0
            } else {
                self.scale
            },
            location: if location is Some {
                location->0
            } else {
                self.location
            },
            ..self
        }
    }

    /// An output as `created` describes it.
    pub fn new(physical: Physical) -> (o: Output)
        ensures
            o == Output::created(physical),
    {
        Output {
            physical,
            mode: None,
            preferred: None,
            transform: Transform::Normal,
            scale: 1,
            location: Position { x: 0, y: 0 },
        }
    }

    /// Changes what is given and keeps the rest.
    pub fn change_current_state(
        &mut self,
        mode: Option<Mode>,
        transform: Option<Transform>,
        scale: Option<i32>,
        location: Option<Position>,
    )
        ensures
            *final(self) == old(self).changed(mode, transform, scale, location),
    {
        match mode {
            Some(m) => {
                self.mode = Some(m);
            },
            None => {},
        }
        match transform {
            Some(t) => {
                self.transform = t;
            },
            None => {},
        }
        match scale {
            Some(s) => {
                self.scale = s;
            },
            None => {},
        }
        match location {
            Some(l) => {
                self.location = l;
            },
            None => {},
        }
    }

    /// Names the mode that clients are told to prefer.
    pub fn set_preferred(&mut self, mode: Mode)
        ensures
            *final(self) == (Output { preferred: Some(mode), ..*old(self) }),
    {
        self.preferred = Some(mode);
    }
}

} // verus!
