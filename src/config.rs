//! Settings: the window's resolution and the input devices.
use vstd::prelude::*;

verus! {

/// Width used unless the resolution is automatic and a width was detected.
pub const DEFAULT_X_RESOLUTION: u32 = 800;

/// Height used unless the resolution is automatic and a height was detected.
pub const DEFAULT_Y_RESOLUTION: u32 = 600;

/// All settings.
pub struct Config {
    pub video: VideoConfig,
    pub input: InputConfig,
}

/// Window settings. With `resolution` set to `"auto"`, the size detected
/// from the display, divided by `scale`, is used.
pub struct VideoConfig {
    pub fullscreen: bool,
    resolution: String,
    scale: u32,
    auto_x_resolution: Option<u32>,
    auto_y_resolution: Option<u32>,
}

/// Input settings: the dead zone of the analog sticks and whether the
/// keyboard acts as a controller.
pub struct InputConfig {
    pub deadzone: u16,
    pub keyboard: bool,
}

impl VideoConfig {
    pub closed spec fn spec_resolution(&self) -> Seq<char> {
        self.resolution@
    }

    pub closed spec fn spec_scale(&self) -> u32 {
        self.scale
    }

    pub closed spec fn spec_auto_x(&self) -> Option<u32> {
        self.auto_x_resolution
    }

    pub closed spec fn spec_auto_y(&self) -> Option<u32> {
        self.auto_y_resolution
    }

    pub closed spec fn spec_fullscreen(&self) -> bool {
        self.fullscreen
    }

    /// The resolution setting reads `"auto"`.
    pub open spec fn is_auto(&self) -> bool {
        self.spec_resolution() == "auto"@
    }

    /// The width in use.
    pub open spec fn spec_x_resolution(&self) -> u32 {
        match self.spec_auto_x() {
            Some(x) if self.is_auto() => (x / self.spec_scale()) as u32,
            _ => DEFAULT_X_RESOLUTION,
        }
    }

    /// The height in use.
    pub open spec fn spec_y_resolution(&self) -> u32 {
        match self.spec_auto_y() {
            Some(y) if self.is_auto() => (y / self.spec_scale()) as u32,
            _ => DEFAULT_Y_RESOLUTION,
        }
    }

    pub fn new(
        fullscreen: bool,
        resolution: String,
        scale: u32,
        auto_x_resolution: Option<u32>,
        auto_y_resolution: Option<u32>,
    ) -> (r: Self)
        ensures
            r.spec_fullscreen() == fullscreen,
            r.spec_resolution() == resolution@,
            r.spec_scale() == scale,
            r.spec_auto_x() == auto_x_resolution,
            r.spec_auto_y() == auto_y_resolution,
    {
        VideoConfig { fullscreen, resolution, scale, auto_x_resolution, auto_y_resolution }
    }

    /// Width: the detected width divided by the scale when the resolution
    /// is automatic and a width was detected, else the default.
    pub fn x_resolution(&self) -> (r: u32)
        requires
            self.is_auto() && self.spec_auto_x() is Some ==> self.spec_scale() != 0,
        ensures
            r == self.spec_x_resolution(),
    {
        match self.auto_x_resolution {
            Some(x_res) => {
                if self.auto_resolution() {
                    x_res / self.scale
                } else {
                    DEFAULT_X_RESOLUTION
                }
            },
            None => DEFAULT_X_RESOLUTION,
        }
    }

    /// Height: the detected height divided by the scale when the resolution
    /// is automatic and a height was detected, else the default.
    pub fn y_resolution(&self) -> (r: u32)
        requires
            self.is_auto() && self.spec_auto_y() is Some ==> self.spec_scale() != 0,
        ensures
            r == self.spec_y_resolution(),
    {
        match self.auto_y_resolution {
            Some(y_res) => {
                if self.auto_resolution() {
                    y_res / self.scale
                } else {
                    DEFAULT_Y_RESOLUTION
                }
            },
            None => DEFAULT_Y_RESOLUTION,
        }
    }

    /// Whether the resolution setting reads `"auto"`.
    pub fn auto_resolution(&self) -> (r: bool)
        ensures
            r == self.is_auto(),
    {
        let auto = "auto".to_owned();
        proof {
            reveal_strlit("auto");
        }
        self.resolution == auto
    }

    /// Records the size detected from the display.
    pub fn set_auto_resolution(&mut self, w: u32, h: u32)
        ensures
            final(self).spec_auto_x() == Some(w),
            final(self).spec_auto_y() == Some(h),
            final(self).spec_resolution() == old(self).spec_resolution(),
            final(self).spec_scale() == old(self).spec_scale(),
            final(self).spec_fullscreen() == old(self).spec_fullscreen(),
    {
        self.auto_x_resolution = Some(w);
        self.auto_y_resolution = Some(h);
    }

    /// The resolution setting as written.
    pub fn resolution(&self) -> (r: &String)
        ensures
            r@ == self.spec_resolution(),
    {
        &self.resolution
    }

    /// The width detected from the display, if any.
    pub fn auto_x_resolution(&self) -> (r: Option<u32>)
        ensures
            r == self.spec_auto_x(),
    {
        self.auto_x_resolution
    }

    /// The height detected from the display, if any.
    pub fn auto_y_resolution(&self) -> (r: Option<u32>)
        ensures
            r == self.spec_auto_y(),
    {
        self.auto_y_resolution
    }

    pub fn scale(&self) -> (r: u32)
        ensures
            r == self.spec_scale(),
    {
        self.scale
    }
}

} // verus!
