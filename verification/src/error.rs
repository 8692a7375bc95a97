//! The failures the library and the program around it report.

use vstd::prelude::*;

verus! {

/// Everything that can go wrong while reading configuration, loading images
/// or applying a wallpaper.  Paths are carried as plain strings.
#[derive(Clone, Debug)]
pub enum Error {
    /// The external refresh command could not be run or exited with failure.
    FailedToRunRefresh,
    /// The regolith configuration file does not exist.
    NoRegConfigFile,
    /// The regolith configuration file exists but could not be read.
    FailedReadRegConfigFile,
    /// The regolith configuration file holds no wallpaper setting.
    NoWallpaperOnRegConfigFile,
    /// A file could not be read.
    FailedToRead(String),
    /// A file could not be written.
    FailedToWriteFile(String),
    /// A path entered by the user does not exist.
    InvalidPath(String),
    /// No home directory could be determined.
    NoHomeDir,
    /// Any other failure, described by a message.
    UnexpectedError(String),
}

/// An error, with any path or message it carries reduced to characters.
pub ghost enum ErrorView {
    /// The external refresh command could not be run or exited with failure.
    FailedToRunRefresh,
    /// The regolith configuration file does not exist.
    NoRegConfigFile,
    /// The regolith configuration file exists but could not be read.
    FailedReadRegConfigFile,
    /// The regolith configuration file holds no wallpaper setting.
    NoWallpaperOnRegConfigFile,
    /// A file could not be read.
    FailedToRead(Seq<char>),
    /// A file could not be written.
    FailedToWriteFile(Seq<char>),
    /// A path entered by the user does not exist.
    InvalidPath(Seq<char>),
    /// No home directory could be determined.
    NoHomeDir,
    /// Any other failure, described by a message.
    UnexpectedError(Seq<char>),
}

impl View for Error {
    type V = ErrorView;

    open spec fn view(&self) -> ErrorView {
        match self {
            Error::FailedToRunRefresh => ErrorView::FailedToRunRefresh,
            Error::NoRegConfigFile => ErrorView::NoRegConfigFile,
            Error::FailedReadRegConfigFile => ErrorView::FailedReadRegConfigFile,
            Error::NoWallpaperOnRegConfigFile => ErrorView::NoWallpaperOnRegConfigFile,
            Error::FailedToRead(p) => ErrorView::FailedToRead(p@),
            Error::FailedToWriteFile(p) => ErrorView::FailedToWriteFile(p@),
            Error::InvalidPath(p) => ErrorView::InvalidPath(p@),
            Error::NoHomeDir => ErrorView::NoHomeDir,
            Error::UnexpectedError(m) => ErrorView::UnexpectedError(m@),
        }
    }
}

/// The text shown to the user for an error.
pub open spec fn spec_error_message(e: ErrorView) -> Seq<char> {
    match e {
        ErrorView::FailedToRunRefresh => "Failed to run `regolith-look refresh`."@,
        ErrorView::NoRegConfigFile => "Regolith config file not found (~/.config/regolith3/Xresources)."@,
        ErrorView::FailedReadRegConfigFile => "Failed to read regolith config file (~/.config/regolith3/Xresources)."@,
        ErrorView::NoWallpaperOnRegConfigFile => "No wallpaper setting (`regolith.wallpaper.file`) on config file (~/.config/regolith3/Xresources)."@,
        ErrorView::FailedToRead(p) => "Failed to read file: "@ + p,
        ErrorView::FailedToWriteFile(p) => "Failed to write file: "@ + p,
        ErrorView::InvalidPath(p) => "Invalid path: "@ + p,
        ErrorView::NoHomeDir => "No home directory found."@,
        ErrorView::UnexpectedError(m) => m,
    }
}

impl Error {
    /// The text shown to the user for this error.
    pub open spec fn spec_message(&self) -> Seq<char> {
        spec_error_message(self@)
    }

    /// Renders the error as the text shown to the user.
    pub fn message(&self) -> (r: String)
        ensures
            r@ == self.spec_message(),
    {
        match self {
            Error::FailedToRunRefresh => "Failed to run `regolith-look refresh`.".to_owned(),
            Error::NoRegConfigFile => "Regolith config file not found (~/.config/regolith3/Xresources).".to_owned(),
            Error::FailedReadRegConfigFile => "Failed to read regolith config file (~/.config/regolith3/Xresources).".to_owned(),
            Error::NoWallpaperOnRegConfigFile => "No wallpaper setting (`regolith.wallpaper.file`) on config file (~/.config/regolith3/Xresources).".to_owned(),
            Error::FailedToRead(p) => "Failed to read file: ".to_owned().concat(p.as_str()),
            Error::FailedToWriteFile(p) => "Failed to write file: ".to_owned().concat(p.as_str()),
            Error::InvalidPath(p) => "Invalid path: ".to_owned().concat(p.as_str()),
            Error::NoHomeDir => "No home directory found.".to_owned(),
            Error::UnexpectedError(m) => m.clone(),
        }
    }
}

} // verus!
