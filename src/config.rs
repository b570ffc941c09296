use vstd::prelude::*;

verus! {

/// Port of the HTTP control and streaming API when the configuration names none.
pub const DEFAULT_API_PORT: u16 = 8090;

/// Seconds between layout shuffles in a fresh configuration.
pub const DEFAULT_SHUFFLE_INTERVAL_SECS: u64 = 900;

/// One network camera. Its identity is `id`.
#[derive(Clone, Debug)]
pub struct Camera {
    pub id: String,
    pub name: String,
    pub url: String,
}

/// Saved position and size of the main window.
#[derive(Clone, Debug)]
pub struct WindowState {
    pub x: i32,
    pub y: i32,
    pub width: u32,
    pub height: u32,
    pub maximized: bool,
}

impl Default for WindowState {
    fn default() -> (r: Self)
        ensures
            r.x == 100 && r.y == 100,
            r.width == 1280 && r.height == 720,
            !r.maximized,
    {
        WindowState { x: 100, y: 100, width: 1280, height: 720, maximized: false }
    }
}

/// The persisted application configuration.
#[derive(Clone, Debug)]
pub struct AppConfig {
    pub cameras: Vec<Camera>,
    pub shuffle_interval_secs: u64,
    pub show_status_dots: bool,
    pub show_camera_names: bool,
    pub api_port: u16,
    pub window_state: WindowState,
}

/// Value of a boolean display flag that the configuration file leaves out.
pub fn default_true() -> (r: bool)
    ensures
        r,
{
    true
}

/// Value of `api_port` when the configuration file leaves it out.
pub fn default_api_port() -> (r: u16)
    ensures
        r == DEFAULT_API_PORT,
{
    DEFAULT_API_PORT
}

impl Default for AppConfig {
    fn default() -> (r: Self)
        ensures
            r.cameras@.len() == 0,
            r.shuffle_interval_secs == DEFAULT_SHUFFLE_INTERVAL_SECS,
            r.show_status_dots && r.show_camera_names,
            r.api_port == DEFAULT_API_PORT,
            r.window_state.x == 100 && r.window_state.y == 100,
            r.window_state.width == 1280 && r.window_state.height == 720,
            !r.window_state.maximized,
    {
        AppConfig {
            cameras: Vec::new(),
            shuffle_interval_secs: DEFAULT_SHUFFLE_INTERVAL_SECS,
            show_status_dots: default_true(),
            show_camera_names: default_true(),
            api_port: default_api_port(),
            window_state: WindowState::default(),
        }
    }
}

/// A saved position is used only when both coordinates lie in -500..=10000.
pub open spec fn position_plausible(x: i32, y: i32) -> bool {
    -500 <= x <= 10000 && -500 <= y <= 10000
}

/// A saved size is used only when the width lies in 200..=10000 and the
/// height in 150..=10000.
pub open spec fn size_plausible(width: u32, height: u32) -> bool {
    200 <= width <= 10000 && 150 <= height <= 10000
}

impl WindowState {
    /// The state to restore: an implausible position (a monitor that was
    /// disconnected) or size falls back to the default one; the maximized flag
    /// is kept.
    pub fn sanitized(&self) -> (r: WindowState)
        ensures
            position_plausible(self.x, self.y) ==> r.x == self.x && r.y == self.y,
            !position_plausible(self.x, self.y) ==> r.x == 100 && r.y == 100,
            size_plausible(self.width, self.height) ==> r.width == self.width && r.height
                == self.height,
            !size_plausible(self.width, self.height) ==> r.width == 1280 && r.height == 720,
            r.maximized == self.maximized,
    {
        let d = WindowState::default();
        let (x, y) = if self.x < -500 || self.x > 10000 || self.y < -500 || self.y > 10000 {
            (d.x, d.y)
        } else {
            (self.x, self.y)
        };
        let (width, height) = if self.width < 200 || self.height < 150 || self.width > 10000
            || self.height > 10000 {
            (d.width, d.height)
        } else {
            (self.width, self.height)
        };
        WindowState { x, y, width, height, maximized: self.maximized }
    }
}

} // verus!
