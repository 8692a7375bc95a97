//! Library behind a small desktop utility that lets a user browse a folder of
//! image files, choose one as the desktop wallpaper, and record that choice in
//! a regolith configuration file.
//!
//! The verified core covers the text of the configuration file (finding and
//! replacing the one recognized `regolith.wallpaper.file:` line while keeping
//! every other line), the filtering of a directory listing down to image
//! files, the expansion of `~` in user input, and the event-driven state
//! machine of the picker itself.  Reading and writing files, decoding images
//! and drawing widgets stay outside, in the thin program around this library.

use vstd::prelude::*;

pub mod app;
pub mod commands;
pub mod configuration;
pub mod utils;
pub mod error;
pub mod status_bar;
pub mod wallpaper_image;
pub mod wallpaper_path;

pub use app::Action;
pub use app::RegolithWallpaperApp;
pub use commands::pick_random_image;
pub use app::Message;
pub use app::UiEvent;
pub use app::UiKey;
pub use app::load_image_files;
pub use app::set_wallpaper_on_config;
pub use app::wallpaper_path_from_config;
pub use configuration::Configuration;
pub use utils::FileEntry;
pub use utils::expand_home_dir;
pub use error::Error;
pub use status_bar::StatusBar;
pub use wallpaper_image::WallpaperImage;
pub use wallpaper_path::WallpaperPath;
pub use wallpaper_path::WallpaperPathMessage;

verus! {

/// The result type used throughout the library.
pub type Result<T> = core::result::Result<T, Error>;

} // verus!
