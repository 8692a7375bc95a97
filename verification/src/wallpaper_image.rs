//! One image of the picker's grid, as the library sees it.

use vstd::prelude::*;

verus! {

/// One image in the picker's grid: its slot in the grid, the path it was
/// loaded from, and whether it is the selected one.  The decoded pixels stay
/// outside the library, keyed by `id`.
#[derive(Clone, Debug)]
pub struct WallpaperImage {
    /// The image's slot in the grid.
    pub id: usize,
    /// The file the image was loaded from.
    pub path: String,
    /// Whether this image is the selected one.
    pub selected: bool,
}

/// An image of the grid, with its path reduced to characters.
pub ghost struct ImageView {
    /// The image's slot in the grid.
    pub id: usize,
    /// The file the image was loaded from.
    pub path: Seq<char>,
    /// Whether this image is the selected one.
    pub selected: bool,
}

impl View for WallpaperImage {
    type V = ImageView;

    open spec fn view(&self) -> ImageView {
        ImageView { id: self.id, path: self.path@, selected: self.selected }
    }
}

impl WallpaperImage {
    /// A freshly loaded image for grid slot `id`, not yet selected.  Decoding
    /// the file's pixels happens outside the library; this records what the
    /// library tracks of it.
    pub fn from_path(id: usize, path: String) -> (r: Self)
        ensures
            r@ == (ImageView { id: id, path: path@, selected: false }),
    {
        WallpaperImage { id, path, selected: false }
    }

    /// Hands out the image's path, for setting it as the wallpaper.
    pub fn select(&mut self) -> (r: String)
        ensures
            final(self)@ == old(self)@,
            r@ == old(self)@.path,
    {
        self.path.clone()
    }
}

} // verus!
