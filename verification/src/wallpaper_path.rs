//! The editor for the wallpapers folder path.

use vstd::prelude::*;

use crate::app::Message;
use crate::configuration::Configuration;
use crate::error::Error;
use crate::utils::expand_home_dir;
use crate::utils::spec_expand_home;

verus! {

/// What the path editor reacts to.
#[derive(Clone, Debug)]
pub enum WallpaperPathMessage {
    /// The text of the input field changed.
    InputEdit(String),
    /// The user confirmed the entered path.
    Accept,
    /// The user dismissed the editor.
    Cancel,
}

/// The folder from which wallpaper images are loaded, together with the text
/// currently standing in the editor's input field.  Which widget holds focus
/// is handled outside the library.
#[derive(Clone, Debug)]
pub struct WallpaperPath {
    /// The text currently in the input field.
    pub input: String,
    /// The accepted wallpapers folder, once one exists.
    pub path: Option<String>,
}

/// The path editor's state, with its strings reduced to characters.
pub ghost struct WallpaperPathView {
    /// The text currently in the input field.
    pub input: Seq<char>,
    /// The accepted wallpapers folder, once one exists.
    pub path: Option<Seq<char>>,
}

impl View for WallpaperPath {
    type V = WallpaperPathView;

    open spec fn view(&self) -> WallpaperPathView {
        WallpaperPathView {
            input: self.input@,
            path: match self.path {
                Option::Some(p) => Option::Some(p@),
                Option::None => Option::None,
            },
        }
    }
}

impl WallpaperPath {
    /// The editor as it starts: showing the configured wallpapers folder, or
    /// empty when none is configured yet.
    pub fn from_config(config: &Configuration) -> (r: Self)
        ensures
            r@.path == config@.wallpapers_path,
            r@.input == match config@.wallpapers_path {
                Option::Some(p) => p,
                Option::None => Seq::<char>::empty(),
            },
    {
        match &config.wallpapers_path {
            Option::Some(p) => WallpaperPath {
                input: p.clone(),
                path: Option::Some(p.clone()),
            },
            Option::None => WallpaperPath { input: String::new(), path: Option::None },
        }
    }

    /// Reacts to one editor message.
    ///
    /// Editing updates the input text.  Accepting expands `~` in the input to
    /// `home`; `input_path_exists` must say whether that expanded path exists
    /// on disk (the caller checks, the library cannot): when it does, the
    /// path is taken over and the picker is told to proceed, otherwise the
    /// status bar is told about the invalid path.  Cancelling puts the
    /// accepted path back into the input field and closes the editor, or does
    /// nothing when no path was ever accepted.
    pub fn update(&mut self, message: WallpaperPathMessage, home: &str, input_path_exists: bool) -> (r:
        Option<Message>)
        ensures
            match message {
                WallpaperPathMessage::InputEdit(t) => {
                    &&& final(self)@ == (WallpaperPathView { input: t@, path: old(self)@.path })
                    &&& r is None
                },
                WallpaperPathMessage::Accept => {
                    let expanded = spec_expand_home(old(self)@.input, home@);
                    if input_path_exists {
                        &&& final(self)@ == (WallpaperPathView {
                            input: expanded,
                            path: Option::Some(expanded),
                        })
                        &&& r matches Option::Some(m) && m is WallpaperPathSetted
                    } else {
                        &&& final(self)@ == old(self)@
                        &&& r matches Option::Some(m) && (m matches Message::UpdateStatusBar(res)
                            && (res matches Result::Err(e) && e@
                            == crate::error::ErrorView::InvalidPath(expanded)))
                    }
                },
                WallpaperPathMessage::Cancel => match old(self)@.path {
                    Option::Some(p) => {
                        &&& final(self)@ == (WallpaperPathView { input: p, path: Option::Some(p) })
                        &&& r matches Option::Some(m) && (m matches Message::WallpaperPathToogle {
                            show,
                            msg,
                        } && (show == false && msg is None))
                    },
                    Option::None => {
                        &&& final(self)@ == old(self)@
                        &&& r is None
                    },
                },
            },
    {
        match message {
            WallpaperPathMessage::InputEdit(t) => {
                self.input = t;
                Option::None
            },
            WallpaperPathMessage::Accept => {
                let expanded = expand_home_dir(self.input.as_str(), home);
                if input_path_exists {
                    self.input = expanded.clone();
                    self.path = Option::Some(expanded);
                    Option::Some(Message::WallpaperPathSetted)
                } else {
                    Option::Some(
                        Message::UpdateStatusBar(Result::Err(Error::InvalidPath(expanded))),
                    )
                }
            },
            WallpaperPathMessage::Cancel => {
                match &self.path {
                    Option::Some(p) => {
                        let p = p.clone();
                        self.input = p;
                        Option::Some(
                            Message::WallpaperPathToogle { show: false, msg: Option::None },
                        )
                    },
                    Option::None => Option::None,
                }
            },
        }
    }
}

} // verus!
