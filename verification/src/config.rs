//! Options for launching a fresh browser process or connecting to a running
//! one. These are plain settings records; the process boundary that consumes
//! them lives outside the verified library.

use vstd::prelude::*;

verus! {

/// Settings for launching a browser process.
pub struct LaunchOptions {
    /// Run without a visible window.
    pub headless: bool,
    /// Window width in pixels.
    pub window_width: u32,
    /// Window height in pixels.
    pub window_height: u32,
    /// Path to a specific browser executable, if not the discovered default.
    pub chrome_path: Option<String>,
    /// Directory holding a persistent browser profile.
    pub user_data_dir: Option<String>,
    /// Keep the browser sandbox enabled.
    pub sandbox: bool,
}

impl LaunchOptions {
    /// Default launch settings: headless, 1280x720, sandboxed, no custom paths.
    pub fn new() -> (r: LaunchOptions)
        ensures
            r.headless == true,
            r.window_width == 1280u32,
            r.window_height == 720u32,
            r.chrome_path is None,
            r.user_data_dir is None,
            r.sandbox == true,
    {
        LaunchOptions {
            headless: true,
            window_width: 1280,
            window_height: 720,
            chrome_path: None,
            user_data_dir: None,
            sandbox: true,
        }
    }

    /// Set whether the browser runs headless.
    pub fn headless(self, headless: bool) -> (r: LaunchOptions)
        ensures
            r == (LaunchOptions { headless, ..self }),
    {
        LaunchOptions { headless, ..self }
    }

    /// Set the window size in pixels.
    pub fn window_size(self, width: u32, height: u32) -> (r: LaunchOptions)
        ensures
            r == (LaunchOptions { window_width: width, window_height: height, ..self }),
    {
        LaunchOptions { window_width: width, window_height: height, ..self }
    }

    /// Set the path to the browser executable.
    pub fn chrome_path(self, path: String) -> (r: LaunchOptions)
        ensures
            r == (LaunchOptions { chrome_path: Some(path), ..self }),
    {
        LaunchOptions { chrome_path: Some(path), ..self }
    }

    /// Set the persistent profile directory.
    pub fn user_data_dir(self, dir: String) -> (r: LaunchOptions)
        ensures
            r == (LaunchOptions { user_data_dir: Some(dir), ..self }),
    {
        LaunchOptions { user_data_dir: Some(dir), ..self }
    }

    /// Set whether the browser sandbox stays enabled.
    pub fn sandbox(self, sandbox: bool) -> (r: LaunchOptions)
        ensures
            r == (LaunchOptions { sandbox, ..self }),
    {
        LaunchOptions { sandbox, ..self }
    }
}

impl Default for LaunchOptions {
    /// Same settings as `LaunchOptions::new`.
    fn default() -> (r: LaunchOptions)
        ensures
            r.headless == true,
            r.window_width == 1280u32,
            r.window_height == 720u32,
            r.chrome_path is None,
            r.user_data_dir is None,
            r.sandbox == true,
    {
        LaunchOptions::new()
    }
}

/// Settings for connecting to an already-running browser over its debugging
/// socket.
pub struct ConnectionOptions {
    /// WebSocket URL of the browser's debugging endpoint.
    pub ws_url: String,
    /// Connection timeout in milliseconds.
    pub timeout: u64,
}

impl ConnectionOptions {
    /// Connection settings for the given endpoint, with a 30 second timeout.
    pub fn new(ws_url: &str) -> (r: ConnectionOptions)
        ensures
            r.ws_url@ == ws_url@,
            r.timeout == 30000u64,
    {
        ConnectionOptions { ws_url: ws_url.to_owned(), timeout: 30000 }
    }

    /// Set the connection timeout in milliseconds.
    pub fn timeout(self, timeout: u64) -> (r: ConnectionOptions)
        ensures
            r == (ConnectionOptions { timeout, ..self }),
    {
        ConnectionOptions { timeout, ..self }
    }
}

} // verus!
