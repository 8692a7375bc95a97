//! The utility's own persisted settings.

use vstd::prelude::*;

verus! {

/// Settings kept between runs: where to look for wallpapers and how many
/// images to load at most.  Both are optional; a fresh configuration has
/// neither.  The settings file itself is read and written outside the
/// library.
#[derive(Clone, Debug)]
pub struct Configuration {
    /// Directory scanned for wallpaper image files.
    pub wallpapers_path: Option<String>,
    /// Upper bound on how many images are loaded for the grid.
    pub max_images: Option<usize>,
}

/// The settings, with the folder path reduced to characters.
pub ghost struct ConfigView {
    /// Directory scanned for wallpaper image files.
    pub wallpapers_path: Option<Seq<char>>,
    /// Upper bound on how many images are loaded for the grid.
    pub max_images: Option<usize>,
}

impl View for Configuration {
    type V = ConfigView;

    open spec fn view(&self) -> ConfigView {
        ConfigView {
            wallpapers_path: match self.wallpapers_path {
                Option::Some(p) => Option::Some(p@),
                Option::None => Option::None,
            },
            max_images: self.max_images,
        }
    }
}

impl Default for Configuration {
    /// A configuration with no wallpaper directory and no image limit.
    fn default() -> (r: Self)
        ensures
            r.wallpapers_path is None,
            r.max_images is None,
    {
        Configuration { wallpapers_path: None, max_images: None }
    }
}

} // verus!
