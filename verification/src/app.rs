//! The picker itself: the text of the regolith configuration file, the
//! filtering of directory listings down to image files, and the event-driven
//! state machine that the window loop feeds.
//!
//! The regolith configuration is a line-oriented text file with one recognized
//! key, `regolith.wallpaper.file:`.  Reading the file finds the first line
//! carrying that key and extracts its value; writing replaces that one line
//! and keeps every other line.  Lines are read the way Rust's `str::lines`
//! reads them: a line ends at `\n`, and a `\r` standing right before the `\n`
//! belongs to the line ending, not to the line.

use vstd::prelude::*;

use crate::utils::FileEntry;
use crate::utils::contains_char;
use crate::utils::chars_of;
use crate::utils::string_of;
use crate::utils::spec_expand_home;
use crate::utils::expand_home_dir;
use crate::error::Error;
use crate::configuration::Configuration;
use crate::configuration::ConfigView;
use crate::status_bar::StatusBar;
use crate::status_bar::StatusView;
use crate::wallpaper_image::WallpaperImage;
use crate::wallpaper_image::ImageView;
use crate::wallpaper_path::WallpaperPath;
use crate::wallpaper_path::WallpaperPathView;
use crate::wallpaper_path::WallpaperPathMessage;
use crate::error::ErrorView;
use crate::error::spec_error_message;

verus! {

/// A key the picker reacts to.
#[derive(Clone, Debug)]
pub enum UiKey {
    /// The escape key.
    Escape,
    /// The letter `q`.
    Q,
    /// Any other key.
    Other,
}

/// A window or keyboard event, reduced to what the picker decides on.
#[derive(Clone, Debug)]
pub enum UiEvent {
    /// A key was pressed.
    KeyPressed(UiKey),
    /// The window was asked to close.
    CloseRequested,
    /// Anything else.
    Other,
}

/// What the picker reacts to: every event the window loop can feed it.
#[derive(Clone, Debug)]
pub enum Message {
    /// A window or keyboard event arrived.
    EventOcurred(UiEvent),
    /// The wallpaper named by the current regolith configuration was looked
    /// up, or looking it up failed.
    CurrentWallpaperPath(crate::Result<String>),
    /// The current wallpaper's image finished loading, or failed to.
    CurrentWallpaperImage(crate::Result<WallpaperImage>),
    /// The path editor reacted to its own message.
    WallpaperPathMessage(WallpaperPathMessage),
    /// The path editor was shown or hidden, possibly with a note for the
    /// status bar.
    WallpaperPathToogle {
        /// Whether the editor is now shown.
        show: bool,
        /// A note for the status bar, if any.
        msg: Option<crate::Result<String>>,
    },
    /// The path editor accepted a wallpapers folder.
    WallpaperPathSetted,
    /// The wallpapers folder was listed, or listing it failed.
    LoadedPaths(crate::Result<Vec<String>>),
    /// One image of the grid finished loading, or failed to.
    LoadedImage(crate::Result<WallpaperImage>),
    /// The image in the given grid slot was clicked.
    SelectImage(usize),
    /// The user asked for a random wallpaper.
    PickRandomImage,
    /// The status bar should show a result.
    UpdateStatusBar(crate::Result<String>),
    /// Writing the settings file finished, or failed.
    ConfigSaved(crate::Result<()>),
}

/// What the picker asks the program around it to do.  The program performs
/// the work and feeds the outcome back as a [`Message`].
#[derive(Clone, Debug)]
pub enum Action {
    /// Close the window.
    CloseWindow,
    /// Read the regolith configuration file and report the wallpaper it
    /// names, as a `CurrentWallpaperPath` message.
    LoadRegolithConfig,
    /// Load the image standing at `path` for the current-wallpaper preview,
    /// reporting a `CurrentWallpaperImage` message.
    LoadCurrentImage {
        /// The image file to load.
        path: String,
    },
    /// List the wallpapers folder, reporting a `LoadedPaths` message.
    LoadImageFiles {
        /// The folder to list.
        path: String,
    },
    /// Load one image for the grid, reporting a `LoadedImage` message.
    LoadImage {
        /// The grid slot the image will fill.
        id: usize,
        /// The image file to load.
        path: String,
    },
    /// Write `path` into the regolith configuration and run the refresh
    /// command, reporting a `CurrentWallpaperPath` message.
    SetWallpaper {
        /// The wallpaper to set.
        path: String,
    },
    /// Write the settings file, reporting a `ConfigSaved` message.
    SaveConfig {
        /// The settings to persist.
        config: Configuration,
    },
    /// Give the path editor's input field focus.
    FocusPathInput,
}

/// An action, with its strings reduced to characters.
pub ghost enum ActionView {
    /// Close the window.
    CloseWindow,
    /// Read the regolith configuration file.
    LoadRegolithConfig,
    /// Load the current-wallpaper preview.
    LoadCurrentImage {
        /// The image file to load.
        path: Seq<char>,
    },
    /// List the wallpapers folder.
    LoadImageFiles {
        /// The folder to list.
        path: Seq<char>,
    },
    /// Load one image for the grid.
    LoadImage {
        /// The grid slot the image will fill.
        id: usize,
        /// The image file to load.
        path: Seq<char>,
    },
    /// Write a wallpaper into the regolith configuration.
    SetWallpaper {
        /// The wallpaper to set.
        path: Seq<char>,
    },
    /// Write the settings file.
    SaveConfig {
        /// The settings to persist.
        config: ConfigView,
    },
    /// Give the path editor's input field focus.
    FocusPathInput,
}

impl View for Action {
    type V = ActionView;

    open spec fn view(&self) -> ActionView {
        match self {
            Action::CloseWindow => ActionView::CloseWindow,
            Action::LoadRegolithConfig => ActionView::LoadRegolithConfig,
            Action::LoadCurrentImage { path } => ActionView::LoadCurrentImage { path: path@ },
            Action::LoadImageFiles { path } => ActionView::LoadImageFiles { path: path@ },
            Action::LoadImage { id, path } => ActionView::LoadImage { id: *id, path: path@ },
            Action::SetWallpaper { path } => ActionView::SetWallpaper { path: path@ },
            Action::SaveConfig { config } => ActionView::SaveConfig { config: config@ },
            Action::FocusPathInput => ActionView::FocusPathInput,
        }
    }
}

/// The actions of a vector, each reduced to its view.
pub open spec fn views_of_actions(v: Seq<Action>) -> Seq<ActionView> {
    v.map_values(|a: Action| a@)
}

/// The strings of a vector, each reduced to its characters.
pub open spec fn views_of_strings(v: Seq<String>) -> Seq<Seq<char>> {
    v.map_values(|s: String| s@)
}

/// The images of a vector, each reduced to its view.
pub open spec fn views_of_images(v: Seq<WallpaperImage>) -> Seq<ImageView> {
    v.map_values(|w: WallpaperImage| w@)
}

/// The picker's full state, with every string reduced to characters.
#[verifier::ext_equal]
pub ghost struct AppView {
    /// The wallpaper the regolith configuration currently names, once loaded.
    pub current_wallpaper: Option<ImageView>,
    /// Why the current wallpaper could not be shown, if it could not.
    pub current_wallpaper_error: Option<Seq<char>>,
    /// The editor for the wallpapers folder.
    pub wallpaper_path: WallpaperPathView,
    /// Whether that editor is shown.
    pub wallpaper_path_show: bool,
    /// The grid of loaded images.
    pub images: Seq<ImageView>,
    /// The status line.
    pub status_bar: StatusView,
    /// The persisted settings.
    pub configuration: ConfigView,
    /// Upper bound on how many images are loaded for the grid.
    pub max_images: Option<usize>,
}

/// The status line showing a result: the text on success, the error's text
/// on failure.
pub open spec fn spec_status_of(res: crate::Result<String>) -> StatusView {
    match res {
        Result::Ok(t) => StatusView::Success(t@),
        Result::Err(e) => StatusView::Error(e.spec_message()),
    }
}

/// The note shown after the wallpapers folder was set.
pub open spec fn spec_path_set_note(path: Seq<char>) -> Seq<char> {
    "Path setted to \""@ + path + "\""@
}

/// Every image of the grid, unselected.
pub open spec fn spec_unselect(imgs: Seq<ImageView>) -> Seq<ImageView> {
    imgs.map_values(|im: ImageView| ImageView { id: im.id, path: im.path, selected: false })
}

/// The first grid slot holding the image with the given id.
pub open spec fn find_image(imgs: Seq<ImageView>, id: usize) -> Option<nat>
    decreases imgs.len(),
{
    if imgs.len() == 0 {
        Option::None
    } else if imgs[0].id == id {
        Option::Some(0 as nat)
    } else {
        match find_image(imgs.skip(1), id) {
            Option::Some(k) => Option::Some((k + 1) as nat),
            Option::None => Option::None,
        }
    }
}

/// What `find_image` finds is the first slot with that id; `None` means no
/// slot has it.
pub proof fn lemma_find_image(imgs: Seq<ImageView>, id: usize)
    ensures
        match find_image(imgs, id) {
            Option::Some(k) => k < imgs.len() && imgs[k as int].id == id && (forall|m: int|
                0 <= m < k ==> imgs[m].id != id),
            Option::None => forall|m: int| 0 <= m < imgs.len() ==> imgs[m].id != id,
        },
    decreases imgs.len(),
{
    if imgs.len() == 0 {
    } else if imgs[0].id == id {
    } else {
        lemma_find_image(imgs.skip(1), id);
        match find_image(imgs.skip(1), id) {
            Option::Some(k) => {
                assert(imgs.skip(1)[k as int] == imgs[k as int + 1]);
                assert forall|m: int| 0 <= m < k + 1 implies imgs[m].id != id by {
                    if m > 0 {
                        assert(imgs.skip(1)[m - 1] == imgs[m]);
                    }
                }
            },
            Option::None => {
                assert forall|m: int| 0 <= m < imgs.len() implies imgs[m].id != id by {
                    if m > 0 {
                        assert(imgs.skip(1)[m - 1] == imgs[m]);
                    }
                }
            },
        }
    }
}

/// A slot with the id and none before it is what `find_image` finds.
pub proof fn lemma_find_image_at(imgs: Seq<ImageView>, id: usize, k: int)
    requires
        0 <= k < imgs.len(),
        imgs[k].id == id,
        forall|m: int| 0 <= m < k ==> imgs[m].id != id,
    ensures
        find_image(imgs, id) == Option::Some(k as nat),
    decreases imgs.len(),
{
    if k == 0 {
    } else {
        assert(imgs.skip(1)[k - 1] == imgs[k]);
        assert forall|m: int| 0 <= m < k - 1 implies imgs.skip(1)[m].id != id by {
            assert(imgs.skip(1)[m] == imgs[m + 1]);
        }
        lemma_find_image_at(imgs.skip(1), id, k - 1);
    }
}

/// Selecting an image: every image is first unselected; when a grid slot
/// holds the clicked id, that image becomes the selected one and its path is
/// handed out to be written into the regolith configuration.
pub open spec fn spec_select(imgs: Seq<ImageView>, id: usize) -> (Seq<ImageView>, Seq<ActionView>) {
    let cleared = spec_unselect(imgs);
    match find_image(imgs, id) {
        Option::None => (cleared, Seq::empty()),
        Option::Some(k) => (
            cleared.update(
                k as int,
                ImageView { id: imgs[k as int].id, path: imgs[k as int].path, selected: true },
            ),
            seq![ActionView::SetWallpaper { path: imgs[k as int].path }],
        ),
    }
}

/// Accepting the wallpapers folder: the grid empties, the folder is recorded
/// in the settings, the editor closes, the status bar reports it, and the
/// settings are saved while the folder is listed anew.
pub open spec fn spec_path_setted(s: AppView) -> (AppView, Seq<ActionView>) {
    match s.wallpaper_path.path {
        Option::None => (s, Seq::empty()),
        Option::Some(p) => {
            let cfg = ConfigView {
                wallpapers_path: Option::Some(p),
                max_images: s.configuration.max_images,
            };
            (
                AppView {
                    images: Seq::empty(),
                    configuration: cfg,
                    wallpaper_path_show: false,
                    status_bar: StatusView::Success(spec_path_set_note(p)),
                    ..s
                },
                seq![
                    ActionView::SaveConfig { config: cfg },
                    ActionView::LoadImageFiles { path: p },
                ],
            )
        },
    }
}

/// Loading actions for the listed files, one per grid slot in listing order,
/// capped at the configured maximum.
pub open spec fn spec_load_actions(paths: Seq<Seq<char>>, max: Option<usize>) -> Seq<ActionView> {
    let k: int = match max {
        Option::Some(m) => if m < paths.len() {
            m as int
        } else {
            paths.len() as int
        },
        Option::None => paths.len() as int,
    };
    Seq::new(k as nat, |i: int| ActionView::LoadImage { id: i as usize, path: paths[i] })
}

/// What a random pick may choose: nothing exactly when the grid is empty,
/// else some slot of the grid.  Messages other than a random pick choose
/// nothing.
pub open spec fn valid_pick(s: AppView, m: Message, pick: Option<int>) -> bool {
    match m {
        Message::PickRandomImage => match pick {
            Option::None => s.images.len() == 0,
            Option::Some(k) => 0 <= k < s.images.len(),
        },
        _ => pick is None,
    }
}

/// One step of the picker: from a state and a message to the next state and
/// the actions handed to the program around the library.
///
/// `home` is the user's home directory, for `~` expansion.
/// `input_path_exists` reports whether the expanded text of the path editor
/// names an existing path on disk; only accepting the editor's input reads
/// it.  `pick` is the grid slot a random pick chose, when the message asks
/// for one.
pub open spec fn spec_update(
    s: AppView,
    m: Message,
    home: Seq<char>,
    input_path_exists: bool,
    pick: Option<int>,
) -> (AppView, Seq<ActionView>) {
    match m {
        Message::EventOcurred(ev) => match ev {
            UiEvent::KeyPressed(k) => match k {
                UiKey::Escape => (s, seq![ActionView::CloseWindow]),
                UiKey::Q => (s, seq![ActionView::CloseWindow]),
                UiKey::Other => (s, Seq::empty()),
            },
            UiEvent::CloseRequested => (s, seq![ActionView::CloseWindow]),
            UiEvent::Other => (s, Seq::empty()),
        },
        Message::CurrentWallpaperPath(res) => match res {
            Result::Ok(p) => (s, seq![ActionView::LoadCurrentImage { path: p@ }]),
            Result::Err(e) => (
                AppView { current_wallpaper_error: Option::Some(e.spec_message()), ..s },
                Seq::empty(),
            ),
        },
        Message::CurrentWallpaperImage(res) => match res {
            Result::Ok(img) => (
                AppView { current_wallpaper: Option::Some(img@), ..s },
                Seq::empty(),
            ),
            Result::Err(e) => (
                AppView { current_wallpaper_error: Option::Some(e.spec_message()), ..s },
                Seq::empty(),
            ),
        },
        Message::WallpaperPathMessage(wmsg) => match wmsg {
            WallpaperPathMessage::InputEdit(t) => (
                AppView {
                    wallpaper_path: WallpaperPathView { input: t@, path: s.wallpaper_path.path },
                    ..s
                },
                Seq::empty(),
            ),
            WallpaperPathMessage::Accept => {
                let expanded = spec_expand_home(s.wallpaper_path.input, home);
                if input_path_exists {
                    spec_path_setted(
                        AppView {
                            wallpaper_path: WallpaperPathView {
                                input: expanded,
                                path: Option::Some(expanded),
                            },
                            ..s
                        },
                    )
                } else {
                    (
                        AppView {
                            status_bar: StatusView::Error(
                                spec_error_message(ErrorView::InvalidPath(expanded)),
                            ),
                            ..s
                        },
                        Seq::empty(),
                    )
                }
            },
            WallpaperPathMessage::Cancel => match s.wallpaper_path.path {
                Option::Some(p) => (
                    AppView {
                        wallpaper_path: WallpaperPathView { input: p, path: Option::Some(p) },
                        wallpaper_path_show: false,
                        ..s
                    },
                    Seq::empty(),
                ),
                Option::None => (s, Seq::empty()),
            },
        },
        Message::WallpaperPathToogle { show, msg } => {
            let s1 = AppView { wallpaper_path_show: show, ..s };
            match msg {
                Option::Some(res) => (
                    AppView { status_bar: spec_status_of(res), ..s1 },
                    Seq::empty(),
                ),
                Option::None => (s1, Seq::empty()),
            }
        },
        Message::WallpaperPathSetted => spec_path_setted(s),
        Message::LoadedPaths(res) => match res {
            Result::Ok(paths) => (s, spec_load_actions(views_of_strings(paths@), s.max_images)),
            Result::Err(e) => (
                AppView { status_bar: StatusView::Error(e.spec_message()), ..s },
                Seq::empty(),
            ),
        },
        Message::LoadedImage(res) => match res {
            Result::Ok(img) => (AppView { images: s.images.push(img@), ..s }, Seq::empty()),
            Result::Err(e) => (
                AppView { status_bar: StatusView::Error(e.spec_message()), ..s },
                Seq::empty(),
            ),
        },
        Message::SelectImage(id) => {
            let r = spec_select(s.images, id);
            (AppView { images: r.0, ..s }, r.1)
        },
        Message::PickRandomImage => match pick {
            Option::None => (s, Seq::empty()),
            Option::Some(k) => {
                let r = spec_select(s.images, s.images[k].id);
                (AppView { images: r.0, ..s }, r.1)
            },
        },
        Message::UpdateStatusBar(res) => (
            AppView { status_bar: spec_status_of(res), ..s },
            Seq::empty(),
        ),
        Message::ConfigSaved(res) => match res {
            Result::Ok(u) => (s, Seq::empty()),
            Result::Err(e) => (
                AppView { status_bar: StatusView::Error(e.spec_message()), ..s },
                Seq::empty(),
            ),
        },
    }
}

/// At most one image of the grid is marked selected.
pub open spec fn at_most_one_selected(imgs: Seq<ImageView>) -> bool {
    forall|i: int, j: int|
        0 <= i < imgs.len() && 0 <= j < imgs.len() && imgs[i].selected && imgs[j].selected ==> i
            == j
}

/// What a random pick did: some slot `k` of the grid was chosen, and the
/// state and actions are those of selecting the image in that slot.
pub open spec fn spec_picked(s: AppView, s2: AppView, acts: Seq<ActionView>, k: int) -> bool {
    &&& 0 <= k < s.images.len()
    &&& {
        let r = spec_select(s.images, s.images[k].id);
        s2 == (AppView { images: r.0, ..s }) && acts == r.1
    }
}

/// The picker's whole state: what is shown, what was loaded, and the
/// persisted settings.  The window loop feeds it messages through
/// [`RegolithWallpaperApp::update`] and performs the actions handed back.
#[derive(Debug)]
pub struct RegolithWallpaperApp {
    /// The wallpaper the regolith configuration currently names, once loaded.
    pub current_wallpaper: Option<WallpaperImage>,
    /// Why the current wallpaper could not be shown, if it could not.
    pub current_wallpaper_error: Option<String>,
    /// The editor for the wallpapers folder.
    pub wallpaper_path: WallpaperPath,
    /// Whether that editor is shown.
    pub wallpaper_path_show: bool,
    /// The grid of loaded images.
    pub images: Vec<WallpaperImage>,
    /// The status line.
    pub status_bar: StatusBar,
    /// The persisted settings.
    pub configuration: Configuration,
    /// Upper bound on how many images are loaded for the grid.
    pub max_images: Option<usize>,
}

impl View for RegolithWallpaperApp {
    type V = AppView;

    open spec fn view(&self) -> AppView {
        AppView {
            current_wallpaper: match self.current_wallpaper {
                Option::Some(w) => Option::Some(w@),
                Option::None => Option::None,
            },
            current_wallpaper_error: match self.current_wallpaper_error {
                Option::Some(t) => Option::Some(t@),
                Option::None => Option::None,
            },
            wallpaper_path: self.wallpaper_path@,
            wallpaper_path_show: self.wallpaper_path_show,
            images: views_of_images(self.images@),
            status_bar: self.status_bar@,
            configuration: self.configuration@,
            max_images: self.max_images,
        }
    }
}

impl RegolithWallpaperApp {
    /// The picker as it starts from the given settings, together with its
    /// first actions: list the configured folder (or ask for one), and look
    /// up the wallpaper the regolith configuration names now.
    pub fn new(config: Configuration) -> (r: (RegolithWallpaperApp, Vec<Action>))
        ensures
            r.0@ == (AppView {
                current_wallpaper: Option::None,
                current_wallpaper_error: Option::None,
                wallpaper_path: WallpaperPathView {
                    input: match config@.wallpapers_path {
                        Option::Some(p) => p,
                        Option::None => Seq::<char>::empty(),
                    },
                    path: config@.wallpapers_path,
                },
                wallpaper_path_show: config@.wallpapers_path is None,
                images: Seq::<ImageView>::empty(),
                status_bar: StatusView::Idle,
                configuration: config@,
                max_images: config@.max_images,
            }),
            views_of_actions(r.1@) == (match config@.wallpapers_path {
                Option::Some(p) => seq![
                    ActionView::LoadImageFiles { path: p },
                    ActionView::LoadRegolithConfig,
                ],
                Option::None => seq![ActionView::FocusPathInput, ActionView::LoadRegolithConfig],
            }),
    {
        let wallpaper_path = WallpaperPath::from_config(&config);
        let mut actions: Vec<Action> = Vec::new();
        let show: bool;
        match &wallpaper_path.path {
            Option::Some(p) => {
                show = false;
                actions.push(Action::LoadImageFiles { path: p.clone() });
            },
            Option::None => {
                show = true;
                actions.push(Action::FocusPathInput);
            },
        }
        actions.push(Action::LoadRegolithConfig);
        let app = RegolithWallpaperApp {
            current_wallpaper: Option::None,
            current_wallpaper_error: Option::None,
            wallpaper_path,
            wallpaper_path_show: show,
            images: Vec::new(),
            status_bar: StatusBar::Idle,
            max_images: config.max_images,
            configuration: config,
        };
        proof {
            assert(views_of_images(app.images@) =~= Seq::<ImageView>::empty());
            match config@.wallpapers_path {
                Option::Some(p) => {
                    assert(views_of_actions(actions@) =~= seq![
                        ActionView::LoadImageFiles { path: p },
                        ActionView::LoadRegolithConfig,
                    ]);
                },
                Option::None => {
                    assert(views_of_actions(actions@) =~= seq![
                        ActionView::FocusPathInput,
                        ActionView::LoadRegolithConfig,
                    ]);
                },
            }
        }
        (app, actions)
    }

    /// The window's title.
    pub fn title(&self) -> (r: String)
        ensures
            r@ == "regolith-wallpaper"@,
    {
        "regolith-wallpaper".to_owned()
    }

    /// Unselects every image of the grid.
    fn unselect_images(&mut self)
        ensures
            final(self)@ == (AppView {
                images: spec_unselect(old(self)@.images),
                ..old(self)@
            }),
    {
        let n = self.images.len();
        let mut i: usize = 0;
        while i < n
            invariant
                i <= n,
                n == self.images@.len(),
                self.images@.len() == old(self).images@.len(),
                forall|m: int|
                    0 <= m < i ==> self.images@[m] == (WallpaperImage {
                        id: old(self).images@[m].id,
                        path: old(self).images@[m].path,
                        selected: false,
                    }),
                forall|m: int| i <= m < n ==> self.images@[m] == old(self).images@[m],
                old(self).current_wallpaper == self.current_wallpaper,
                old(self).current_wallpaper_error == self.current_wallpaper_error,
                old(self).wallpaper_path == self.wallpaper_path,
                old(self).wallpaper_path_show == self.wallpaper_path_show,
                old(self).status_bar == self.status_bar,
                old(self).configuration == self.configuration,
                old(self).max_images == self.max_images,
            decreases n - i,
        {
            self.images[i].selected = false;
            i = i + 1;
        }
        proof {
            assert(views_of_images(self.images@) =~= spec_unselect(
                views_of_images(old(self).images@),
            ));
            assert(final(self)@ =~= (AppView {
                images: spec_unselect(old(self)@.images),
                ..old(self)@
            }));
        }
    }

    /// Selects the image in the grid slot carrying `id`, unselecting every
    /// other one, and asks for its path to be written into the regolith
    /// configuration; with no such slot, only the unselecting happens.
    fn select_image(&mut self, id: usize) -> (r: Vec<Action>)
        ensures
            final(self)@ == (AppView {
                images: spec_select(old(self)@.images, id).0,
                ..old(self)@
            }),
            views_of_actions(r@) == spec_select(old(self)@.images, id).1,
    {
        let ghost s0 = old(self)@;
        self.unselect_images();
        let n = self.images.len();
        let mut k: usize = 0;
        while k < n && self.images[k].id != id
            invariant
                k <= n,
                n == self.images@.len(),
                self@ == (AppView { images: spec_unselect(s0.images), ..s0 }),
                forall|m: int| 0 <= m < k ==> views_of_images(self.images@)[m].id != id,
            decreases n - k,
        {
            k = k + 1;
        }
        proof {
            assert(views_of_images(self.images@) == spec_unselect(s0.images));
            assert forall|m: int| 0 <= m < s0.images.len() implies #[trigger] s0.images[m].id
                == views_of_images(self.images@)[m].id by {
                assert(spec_unselect(s0.images)[m] == (ImageView {
                    id: s0.images[m].id,
                    path: s0.images[m].path,
                    selected: false,
                }));
            }
            assert(views_of_images(self.images@).len() == s0.images.len());
        }
        if k < n {
            proof {
                assert(self.images@[k as int]@ == views_of_images(self.images@)[k as int]);
                assert(s0.images[k as int].id == id);
                assert(forall|m: int| 0 <= m < k ==> s0.images[m].id != id);
                lemma_find_image_at(s0.images, id, k as int);
            }
            self.images[k].selected = true;
            let path = self.images[k].path.clone();
            let mut acts: Vec<Action> = Vec::new();
            acts.push(Action::SetWallpaper { path });
            proof {
                assert(views_of_images(self.images@) =~= spec_select(s0.images, id).0);
                assert(final(self)@ =~= (AppView { images: spec_select(s0.images, id).0, ..s0 }));
                assert(views_of_actions(acts@) =~= spec_select(s0.images, id).1);
            }
            acts
        } else {
            proof {
                assert(k == n);
                assert(forall|m: int| 0 <= m < s0.images.len() ==> s0.images[m].id != id);
                lemma_find_image(s0.images, id);
                if find_image(s0.images, id) is Some {
                    let w = find_image(s0.images, id).unwrap();
                    assert(s0.images[w as int].id == id);
                }
                assert(find_image(s0.images, id) is None);
                assert(views_of_actions(Seq::<Action>::empty()) =~= Seq::<ActionView>::empty());
            }
            Vec::new()
        }
    }

    /// Shows a result in the status line.
    fn set_status(&mut self, res: crate::Result<String>)
        ensures
            final(self)@ == (AppView { status_bar: spec_status_of(res), ..old(self)@ }),
    {
        match res {
            Result::Ok(t) => {
                self.status_bar = StatusBar::Success(t);
            },
            Result::Err(e) => {
                let msg = e.message();
                self.status_bar = StatusBar::Error(msg);
            },
        }
    }

    /// Takes over the accepted wallpapers folder: empties the grid, records
    /// the folder in the settings, closes the editor, notes it in the status
    /// line, and asks for the settings to be saved and the folder listed.
    fn handle_path_setted(&mut self) -> (r: Vec<Action>)
        ensures
            final(self)@ == spec_path_setted(old(self)@).0,
            views_of_actions(r@) == spec_path_setted(old(self)@).1,
    {
        let p_opt = match &self.wallpaper_path.path {
            Option::Some(p) => Option::Some(p.clone()),
            Option::None => Option::None,
        };
        match p_opt {
            Option::Some(p) => {
                self.images = Vec::new();
                self.configuration = Configuration {
                    wallpapers_path: Option::Some(p.clone()),
                    max_images: self.configuration.max_images,
                };
                self.wallpaper_path_show = false;
                let note = "Path setted to \"".to_owned().concat(p.as_str()).concat("\"");
                self.status_bar = StatusBar::Success(note);
                let cfg = Configuration {
                    wallpapers_path: Option::Some(p.clone()),
                    max_images: self.configuration.max_images,
                };
                let mut acts: Vec<Action> = Vec::new();
                acts.push(Action::SaveConfig { config: cfg });
                acts.push(Action::LoadImageFiles { path: p });
                proof {
                    assert(views_of_images(self.images@) =~= Seq::<ImageView>::empty());
                    assert(final(self)@ =~= spec_path_setted(old(self)@).0);
                    assert(views_of_actions(acts@) =~= spec_path_setted(old(self)@).1);
                }
                acts
            },
            Option::None => {
                proof {
                    assert(views_of_actions(Seq::<Action>::empty()) =~= Seq::<
                        ActionView,
                    >::empty());
                }
                Vec::new()
            },
        }
    }

    /// Reacts to one message: steps the state as [`spec_update`] says and
    /// hands back the actions for the program around the library to perform.
    ///
    /// `home` is the user's home directory, for `~` expansion.
    /// `input_path_exists` must report whether the expanded text of the path
    /// editor's input names an existing path on disk; only accepting the
    /// editor's input reads it.  A random pick draws its grid slot here, so
    /// for that one message the chosen slot is promised to exist rather than
    /// named.
    pub fn update(&mut self, message: Message, home: &str, input_path_exists: bool) -> (r: Vec<
        Action,
    >)
        ensures
            (!(message is PickRandomImage) || old(self)@.images.len() == 0) ==> ({
                let su = spec_update(old(self)@, message, home@, input_path_exists, Option::None);
                final(self)@ == su.0 && views_of_actions(r@) == su.1
            }),
            message is PickRandomImage && old(self)@.images.len() > 0 ==> exists|k: int|
                #[trigger] spec_picked(old(self)@, final(self)@, views_of_actions(r@), k),
    {
        let ghost s0 = old(self)@;
        match message {
            Message::EventOcurred(ev) => {
                let close = match ev {
                    UiEvent::KeyPressed(UiKey::Escape) => true,
                    UiEvent::KeyPressed(UiKey::Q) => true,
                    UiEvent::CloseRequested => true,
                    _ => false,
                };
                if close {
                    let mut acts: Vec<Action> = Vec::new();
                    acts.push(Action::CloseWindow);
                    proof {
                        assert(views_of_actions(acts@) =~= seq![ActionView::CloseWindow]);
                    }
                    acts
                } else {
                    proof {
                        assert(views_of_actions(Seq::<Action>::empty()) =~= Seq::<
                            ActionView,
                        >::empty());
                    }
                    Vec::new()
                }
            },
            Message::CurrentWallpaperPath(res) => match res {
                Result::Ok(p) => {
                    let mut acts: Vec<Action> = Vec::new();
                    acts.push(Action::LoadCurrentImage { path: p });
                    proof {
                        assert(views_of_actions(acts@) =~= spec_update(
                            s0,
                            message,
                            home@,
                            input_path_exists,
                            Option::None,
                        ).1);
                    }
                    acts
                },
                Result::Err(e) => {
                    let msg = e.message();
                    self.current_wallpaper_error = Option::Some(msg);
                    proof {
                        assert(views_of_actions(Seq::<Action>::empty()) =~= Seq::<
                            ActionView,
                        >::empty());
                    }
                    Vec::new()
                },
            },
            Message::CurrentWallpaperImage(res) => match res {
                Result::Ok(img) => {
                    self.current_wallpaper = Option::Some(img);
                    proof {
                        assert(views_of_actions(Seq::<Action>::empty()) =~= Seq::<
                            ActionView,
                        >::empty());
                    }
                    Vec::new()
                },
                Result::Err(e) => {
                    let msg = e.message();
                    self.current_wallpaper_error = Option::Some(msg);
                    proof {
                        assert(views_of_actions(Seq::<Action>::empty()) =~= Seq::<
                            ActionView,
                        >::empty());
                    }
                    Vec::new()
                },
            },
            Message::WallpaperPathMessage(wmsg) => {
                let ghost gw = wmsg;
                let inner = self.wallpaper_path.update(wmsg, home, input_path_exists);
                match inner {
                    Option::None => {
                        proof {
                            assert(views_of_actions(Seq::<Action>::empty()) =~= Seq::<
                                ActionView,
                            >::empty());
                            assert(final(self)@ =~= spec_update(
                                s0,
                                message,
                                home@,
                                input_path_exists,
                                Option::None,
                            ).0);
                        }
                        Vec::new()
                    },
                    Option::Some(Message::WallpaperPathSetted) => {
                        let acts = self.handle_path_setted();
                        proof {
                            assert(final(self)@ =~= spec_update(
                                s0,
                                message,
                                home@,
                                input_path_exists,
                                Option::None,
                            ).0);
                        }
                        acts
                    },
                    Option::Some(Message::UpdateStatusBar(res2)) => {
                        self.set_status(res2);
                        proof {
                            assert(views_of_actions(Seq::<Action>::empty()) =~= Seq::<
                                ActionView,
                            >::empty());
                            assert(final(self)@ =~= spec_update(
                                s0,
                                message,
                                home@,
                                input_path_exists,
                                Option::None,
                            ).0);
                        }
                        Vec::new()
                    },
                    Option::Some(Message::WallpaperPathToogle { show, msg }) => {
                        self.wallpaper_path_show = show;
                        match msg {
                            Option::Some(res2) => {
                                self.set_status(res2);
                            },
                            Option::None => {},
                        }
                        proof {
                            assert(views_of_actions(Seq::<Action>::empty()) =~= Seq::<
                                ActionView,
                            >::empty());
                            assert(final(self)@ =~= spec_update(
                                s0,
                                message,
                                home@,
                                input_path_exists,
                                Option::None,
                            ).0);
                        }
                        Vec::new()
                    },
                    Option::Some(_) => {
                        proof {
                            assert(false);
                        }
                        Vec::new()
                    },
                }
            },
            Message::WallpaperPathToogle { show, msg } => {
                self.wallpaper_path_show = show;
                match msg {
                    Option::Some(res) => {
                        self.set_status(res);
                    },
                    Option::None => {},
                }
                proof {
                    assert(views_of_actions(Seq::<Action>::empty()) =~= Seq::<
                        ActionView,
                    >::empty());
                    assert(final(self)@ =~= spec_update(
                        s0,
                        message,
                        home@,
                        input_path_exists,
                        Option::None,
                    ).0);
                }
                Vec::new()
            },
            Message::WallpaperPathSetted => {
                let acts = self.handle_path_setted();
                acts
            },
            Message::LoadedPaths(res) => match res {
                Result::Ok(paths) => {
                    let ghost target = spec_load_actions(views_of_strings(paths@), s0.max_images);
                    let limit = match self.max_images {
                        Option::Some(m) => if m < paths.len() {
                            m
                        } else {
                            paths.len()
                        },
                        Option::None => paths.len(),
                    };
                    let mut acts: Vec<Action> = Vec::new();
                    let mut i: usize = 0;
                    proof {
                        assert(limit as int == target.len());
                        assert(views_of_actions(acts@) =~= target.take(0));
                    }
                    while i < limit
                        invariant
                            i <= limit,
                            limit <= paths@.len(),
                            limit as int == target.len(),
                            target == spec_load_actions(views_of_strings(paths@), s0.max_images),
                            views_of_actions(acts@) == target.take(i as int),
                        decreases limit - i,
                    {
                        let path = paths[i].clone();
                        acts.push(Action::LoadImage { id: i, path });
                        proof {
                            assert(views_of_strings(paths@)[i as int] == paths@[i as int]@);
                            assert(target[i as int] == (ActionView::LoadImage {
                                id: i as usize,
                                path: paths@[i as int]@,
                            }));
                            assert(target.take(i as int + 1) =~= target.take(i as int).push(
                                target[i as int],
                            ));
                            assert(views_of_actions(acts@) =~= target.take(i as int + 1));
                        }
                        i = i + 1;
                    }
                    proof {
                        assert(target.take(limit as int) =~= target);
                    }
                    acts
                },
                Result::Err(e) => {
                    let msg = e.message();
                    self.status_bar = StatusBar::Error(msg);
                    proof {
                        assert(views_of_actions(Seq::<Action>::empty()) =~= Seq::<
                            ActionView,
                        >::empty());
                    }
                    Vec::new()
                },
            },
            Message::LoadedImage(res) => match res {
                Result::Ok(img) => {
                    self.images.push(img);
                    proof {
                        assert(views_of_images(self.images@) =~= s0.images.push(img@));
                        assert(final(self)@ =~= (AppView {
                            images: s0.images.push(img@),
                            ..s0
                        }));
                        assert(views_of_actions(Seq::<Action>::empty()) =~= Seq::<
                            ActionView,
                        >::empty());
                    }
                    Vec::new()
                },
                Result::Err(e) => {
                    let msg = e.message();
                    self.status_bar = StatusBar::Error(msg);
                    proof {
                        assert(views_of_actions(Seq::<Action>::empty()) =~= Seq::<
                            ActionView,
                        >::empty());
                    }
                    Vec::new()
                },
            },
            Message::SelectImage(id) => {
                let acts = self.select_image(id);
                acts
            },
            Message::PickRandomImage => {
                let n = self.images.len();
                match crate::commands::choose_index(n) {
                    Option::Some(k) => {
                        let id = self.images[k].id;
                        let acts = self.select_image(id);
                        proof {
                            assert(s0.images[k as int].id == id);
                            assert(spec_picked(s0, final(self)@, views_of_actions(acts@), k as int));
                        }
                        acts
                    },
                    Option::None => {
                        proof {
                            assert(views_of_actions(Seq::<Action>::empty()) =~= Seq::<
                                ActionView,
                            >::empty());
                        }
                        Vec::new()
                    },
                }
            },
            Message::UpdateStatusBar(res) => {
                self.set_status(res);
                proof {
                    assert(views_of_actions(Seq::<Action>::empty()) =~= Seq::<
                        ActionView,
                    >::empty());
                }
                Vec::new()
            },
            Message::ConfigSaved(res) => match res {
                Result::Ok(_) => {
                    proof {
                        assert(views_of_actions(Seq::<Action>::empty()) =~= Seq::<
                            ActionView,
                        >::empty());
                    }
                    Vec::new()
                },
                Result::Err(e) => {
                    let msg = e.message();
                    self.status_bar = StatusBar::Error(msg);
                    proof {
                        assert(views_of_actions(Seq::<Action>::empty()) =~= Seq::<
                            ActionView,
                        >::empty());
                    }
                    Vec::new()
                },
            },
        }
    }
}

/// Every step of the picker keeps at most one image of the grid selected, as
/// long as a loaded image arrives unselected, the way freshly loaded images
/// do.
pub proof fn lemma_update_keeps_selection(
    s: AppView,
    m: Message,
    home: Seq<char>,
    input_path_exists: bool,
    pick: Option<int>,
)
    requires
        at_most_one_selected(s.images),
        valid_pick(s, m, pick),
        m matches Message::LoadedImage(res) ==> (res matches Result::Ok(img)
            ==> !img@.selected),
    ensures
        at_most_one_selected(spec_update(s, m, home, input_path_exists, pick).0.images),
{
    let imgs2 = spec_update(s, m, home, input_path_exists, pick).0.images;
    match m {
        Message::LoadedImage(res) => match res {
            Result::Ok(img) => {
                assert forall|i: int, j: int|
                    0 <= i < imgs2.len() && 0 <= j < imgs2.len() && imgs2[i].selected
                        && imgs2[j].selected implies i == j by {
                    if i < s.images.len() && j < s.images.len() {
                    } else {
                        assert(imgs2[s.images.len() as int] == img@);
                    }
                }
            },
            Result::Err(e) => {},
        },
        Message::SelectImage(id) => {
            lemma_select_keeps_one(s.images, id);
        },
        Message::PickRandomImage => {
            match pick {
                Option::Some(k) => {
                    lemma_select_keeps_one(s.images, s.images[k].id);
                },
                Option::None => {},
            }
        },
        _ => {},
    }
}

/// Selecting marks at most one image, whatever was selected before.
pub proof fn lemma_select_keeps_one(imgs: Seq<ImageView>, id: usize)
    ensures
        at_most_one_selected(spec_select(imgs, id).0),
{
    let cleared = spec_unselect(imgs);
    assert(forall|m: int| 0 <= m < cleared.len() ==> !(#[trigger] cleared[m]).selected);
    match find_image(imgs, id) {
        Option::None => {},
        Option::Some(k) => {
            lemma_find_image(imgs, id);
            assert(cleared.len() == imgs.len());
            let out = spec_select(imgs, id).0;
            assert forall|i: int, j: int|
                0 <= i < out.len() && 0 <= j < out.len() && out[i].selected && out[j].selected
                implies i == j by {
                if i != k as int {
                    assert(out[i] == cleared[i]);
                }
                if j != k as int {
                    assert(out[j] == cleared[j]);
                }
            }
        },
    }
}

/// The one key this utility recognizes in the regolith configuration file.
pub open spec fn wallpaper_key() -> Seq<char> {
    "regolith.wallpaper.file:"@
}

/// The configuration line that sets the wallpaper to `path`.
pub open spec fn spec_new_key_line(path: Seq<char>) -> Seq<char> {
    wallpaper_key() + " "@ + path
}

/// `l` without a trailing carriage return, if it has one.
pub open spec fn strip_cr(l: Seq<char>) -> Seq<char> {
    if l.len() > 0 && l.last() == '\r' {
        l.drop_last()
    } else {
        l
    }
}

/// How many characters the first line of `s` spans, up to but not including
/// its `\n`, or all of `s` when no `\n` follows.
pub open spec fn line_len(s: Seq<char>) -> nat
    decreases s.len(),
{
    if s.len() == 0 {
        0
    } else if s[0] == '\n' {
        0
    } else {
        1 + line_len(s.skip(1))
    }
}

/// The length of the first line is in bounds, it stops exactly at the first
/// `\n`, and no `\n` stands inside it.
pub proof fn lemma_line_len(s: Seq<char>)
    ensures
        line_len(s) <= s.len(),
        line_len(s) < s.len() ==> s[line_len(s) as int] == '\n',
        forall|k: int| 0 <= k < line_len(s) ==> s[k] != '\n',
    decreases s.len(),
{
    if s.len() == 0 {
    } else if s[0] == '\n' {
    } else {
        lemma_line_len(s.skip(1));
        assert forall|k: int| 0 <= k < line_len(s) implies s[k] != '\n' by {
            if k > 0 {
                assert(s.skip(1)[k - 1] == s[k]);
            }
        }
        if line_len(s) < s.len() {
            assert(s.skip(1)[line_len(s) - 1] == s[line_len(s) as int]);
        }
    }
}

/// Stepping over one character of the first line, or over its `\n`.
pub proof fn lemma_line_len_step(s: Seq<char>, k: int)
    requires
        0 <= k < s.len(),
    ensures
        s[k] != '\n' ==> line_len(s.skip(k)) == 1 + line_len(s.skip(k + 1)),
        s[k] == '\n' ==> line_len(s.skip(k)) == 0,
{
    assert(s.skip(k)[0] == s[k]);
    assert(s.skip(k).skip(1) =~= s.skip(k + 1));
}

/// The first line of `s`, as `str::lines` would hand it out: up to the first
/// `\n` with a `\r` right before the `\n` stripped, or all of `s` when no
/// `\n` follows.
pub open spec fn first_line(s: Seq<char>) -> Seq<char> {
    if line_len(s) == s.len() {
        s
    } else {
        strip_cr(s.take(line_len(s) as int))
    }
}

/// Whether `p` is a prefix of `s`.
pub open spec fn starts_with(s: Seq<char>, p: Seq<char>) -> bool {
    p.len() <= s.len() && s.take(p.len() as int) == p
}

/// Whether `l` is a line carrying the wallpaper key.
pub open spec fn is_key_line(l: Seq<char>) -> bool {
    starts_with(l, wallpaper_key())
}

/// The lines of `s`, as `str::lines` yields them.
pub open spec fn spec_lines(s: Seq<char>) -> Seq<Seq<char>>
    decreases s.len(),
    via spec_lines_dec
{
    if s.len() == 0 {
        Seq::empty()
    } else if line_len(s) == s.len() {
        seq![s]
    } else {
        seq![first_line(s)] + spec_lines(s.skip(line_len(s) as int + 1))
    }
}

#[via_fn]
proof fn spec_lines_dec(s: Seq<char>) {
    lemma_line_len(s);
}

/// The lines of `s`, each stripped of a `\r` before its `\n`, joined back
/// with single `\n` separators and no final line ending.
pub open spec fn spec_tail(s: Seq<char>) -> Seq<char>
    decreases s.len(),
    via spec_tail_dec
{
    if s.len() == 0 {
        Seq::empty()
    } else if line_len(s) == s.len() {
        s
    } else if s.len() == line_len(s) + 1 {
        first_line(s)
    } else {
        first_line(s) + seq!['\n'] + spec_tail(s.skip(line_len(s) as int + 1))
    }
}

#[via_fn]
proof fn spec_tail_dec(s: Seq<char>) {
    lemma_line_len(s);
}

/// The configuration text `s` with its first wallpaper line replaced by the
/// line naming `path`.  Lines before the replaced one keep their text and are
/// terminated with `\n`; lines after it are joined with `\n` and the text
/// ends without a final line ending, except that when no line carries the key
/// every line is kept and terminated with `\n`.
pub open spec fn spec_rewrite(s: Seq<char>, path: Seq<char>) -> Seq<char>
    decreases s.len(),
    via spec_rewrite_dec
{
    if s.len() == 0 {
        Seq::empty()
    } else if is_key_line(first_line(s)) {
        if line_len(s) == s.len() {
            spec_new_key_line(path) + seq!['\n']
        } else {
            spec_new_key_line(path) + seq!['\n'] + spec_tail(s.skip(line_len(s) as int + 1))
        }
    } else if line_len(s) == s.len() {
        first_line(s) + seq!['\n']
    } else {
        first_line(s) + seq!['\n'] + spec_rewrite(s.skip(line_len(s) as int + 1), path)
    }
}

#[via_fn]
proof fn spec_rewrite_dec(s: Seq<char>, path: Seq<char>) {
    lemma_line_len(s);
}

/// The first line of `s` carrying the wallpaper key, if any line does.
pub open spec fn spec_find_wallpaper_line(s: Seq<char>) -> Option<Seq<char>>
    decreases s.len(),
    via spec_find_wallpaper_line_dec
{
    if s.len() == 0 {
        Option::None
    } else if is_key_line(first_line(s)) {
        Option::Some(first_line(s))
    } else if line_len(s) == s.len() {
        Option::None
    } else {
        spec_find_wallpaper_line(s.skip(line_len(s) as int + 1))
    }
}

#[via_fn]
proof fn spec_find_wallpaper_line_dec(s: Seq<char>) {
    lemma_line_len(s);
}

/// The position of the first `c` in `s`, if `s` holds one.
pub open spec fn find_char(s: Seq<char>, c: char) -> Option<nat>
    decreases s.len(),
{
    if s.len() == 0 {
        Option::None
    } else if s[0] == c {
        Option::Some(0 as nat)
    } else {
        match find_char(s.skip(1), c) {
            Option::Some(i) => Option::Some((i + 1) as nat),
            Option::None => Option::None,
        }
    }
}

/// What `find_char` finds is the first occurrence; `None` means there is none.
pub proof fn lemma_find_char(s: Seq<char>, c: char)
    ensures
        match find_char(s, c) {
            Option::Some(i) => i < s.len() && s[i as int] == c && (forall|k: int|
                0 <= k < i ==> s[k] != c),
            Option::None => forall|k: int| 0 <= k < s.len() ==> s[k] != c,
        },
    decreases s.len(),
{
    if s.len() == 0 {
    } else if s[0] == c {
    } else {
        lemma_find_char(s.skip(1), c);
        match find_char(s.skip(1), c) {
            Option::Some(i) => {
                assert(s.skip(1)[i as int] == s[i as int + 1]);
                assert forall|k: int| 0 <= k < i + 1 implies s[k] != c by {
                    if k > 0 {
                        assert(s.skip(1)[k - 1] == s[k]);
                    }
                }
            },
            Option::None => {
                assert forall|k: int| 0 <= k < s.len() implies s[k] != c by {
                    if k > 0 {
                        assert(s.skip(1)[k - 1] == s[k]);
                    }
                }
            },
        }
    }
}

/// A position that carries `c` with none before it is what `find_char` finds.
pub proof fn lemma_find_char_at(s: Seq<char>, c: char, i: int)
    requires
        0 <= i < s.len(),
        s[i] == c,
        forall|k: int| 0 <= k < i ==> s[k] != c,
    ensures
        find_char(s, c) == Option::Some(i as nat),
    decreases s.len(),
{
    if i == 0 {
    } else {
        assert(s.skip(1)[i - 1] == s[i]);
        assert forall|k: int| 0 <= k < i - 1 implies s.skip(1)[k] != c by {
            assert(s.skip(1)[k] == s[k + 1]);
        }
        lemma_find_char_at(s.skip(1), c, i - 1);
    }
}

/// When no position carries `c`, `find_char` finds none.
pub proof fn lemma_find_char_none(s: Seq<char>, c: char)
    requires
        forall|k: int| 0 <= k < s.len() ==> s[k] != c,
    ensures
        find_char(s, c) is None,
{
    lemma_find_char(s, c);
    if find_char(s, c) is Some {
        let i = find_char(s, c).unwrap();
        assert(s[i as int] == c);
    }
}

/// The text between the first and the second `:` of `l`, or everything after
/// the first `:` when no second one follows; empty when `l` has no `:` at
/// all.  This is the value field of a `key: value` line.
pub open spec fn spec_value_segment(l: Seq<char>) -> Seq<char> {
    match find_char(l, ':') {
        Option::None => Seq::empty(),
        Option::Some(i) => {
            let rest = l.skip(i as int + 1);
            match find_char(rest, ':') {
                Option::None => rest,
                Option::Some(j) => rest.take(j as int),
            }
        },
    }
}

/// The blank characters trimmed from a value: spaces, tabs and line endings.
pub open spec fn is_wspace(c: char) -> bool {
    c == ' ' || c == '\t' || c == '\r' || c == '\n'
}

/// `s` without leading blank characters.
pub open spec fn trim_start(s: Seq<char>) -> Seq<char>
    decreases s.len(),
{
    if s.len() > 0 && is_wspace(s[0]) {
        trim_start(s.skip(1))
    } else {
        s
    }
}

/// `s` without trailing blank characters.
pub open spec fn trim_end(s: Seq<char>) -> Seq<char>
    decreases s.len(),
{
    if s.len() > 0 && is_wspace(s.last()) {
        trim_end(s.drop_last())
    } else {
        s
    }
}

/// `s` without leading and trailing blank characters.
pub open spec fn spec_trim(s: Seq<char>) -> Seq<char> {
    trim_end(trim_start(s))
}

/// The wallpaper path a configuration line `l` names: its value field,
/// trimmed, with `~` expanded to `home`.
pub open spec fn spec_wallpaper_value(l: Seq<char>, home: Seq<char>) -> Seq<char> {
    spec_expand_home(spec_trim(spec_value_segment(l)), home)
}

/// The position of the first line of `ls` carrying the wallpaper key, if any
/// line does.
pub open spec fn key_line_index(ls: Seq<Seq<char>>) -> Option<nat>
    decreases ls.len(),
{
    if ls.len() == 0 {
        Option::None
    } else if is_key_line(ls[0]) {
        Option::Some(0 as nat)
    } else {
        match key_line_index(ls.skip(1)) {
            Option::Some(i) => Option::Some((i + 1) as nat),
            Option::None => Option::None,
        }
    }
}

/// A found key line stands inside the sequence.
proof fn lemma_key_line_index_le(ls: Seq<Seq<char>>)
    ensures
        key_line_index(ls) matches Option::Some(m) ==> m < ls.len(),
    decreases ls.len(),
{
    if ls.len() == 0 {
    } else if is_key_line(ls[0]) {
    } else {
        lemma_key_line_index_le(ls.skip(1));
    }
}

/// A concatenation holds a character exactly when one of its parts does.
proof fn lemma_contains_concat(a: Seq<char>, b: Seq<char>, c: char)
    ensures
        contains_char(a + b, c) <==> contains_char(a, c) || contains_char(b, c),
{
    if contains_char(a, c) {
        let k = choose|k: int| 0 <= k < a.len() && a[k] == c;
        assert((a + b)[k] == c);
    }
    if contains_char(b, c) {
        let k = choose|k: int| 0 <= k < b.len() && b[k] == c;
        assert((a + b)[a.len() + k] == c);
    }
    if contains_char(a + b, c) {
        let k = choose|k: int| 0 <= k < (a + b).len() && (a + b)[k] == c;
        if k < a.len() {
            assert(a[k] == c);
        } else {
            assert(b[k - a.len()] == c);
        }
    }
}

/// The wallpaper key holds neither line breaks nor carriage returns nor a
/// second colon before its final one.
proof fn lemma_key_chars()
    ensures
        wallpaper_key().len() == 24,
        !contains_char(wallpaper_key(), '\n'),
        !contains_char(wallpaper_key(), '\r'),
        wallpaper_key()[23] == ':',
        forall|k: int| 0 <= k < 23 ==> wallpaper_key()[k] != ':',
{
    reveal_strlit("regolith.wallpaper.file:");
    assert(wallpaper_key().len() == 24);
    assert forall|k: int| 0 <= k < 24 implies wallpaper_key()[k] != '\n' && wallpaper_key()[k]
        != '\r' by {
        if k < 12 {
            if k < 6 {
                assert(k == 0 || k == 1 || k == 2 || k == 3 || k == 4 || k == 5);
            } else {
                assert(k == 6 || k == 7 || k == 8 || k == 9 || k == 10 || k == 11);
            }
        } else {
            if k < 18 {
                assert(k == 12 || k == 13 || k == 14 || k == 15 || k == 16 || k == 17);
            } else {
                assert(k == 18 || k == 19 || k == 20 || k == 21 || k == 22 || k == 23);
            }
        }
    }
    if contains_char(wallpaper_key(), '\n') {
        let k = choose|k: int|
            0 <= k < wallpaper_key().len() && wallpaper_key()[k] == '\n';
        assert(false);
    }
    if contains_char(wallpaper_key(), '\r') {
        let k = choose|k: int|
            0 <= k < wallpaper_key().len() && wallpaper_key()[k] == '\r';
        assert(false);
    }
    assert forall|k: int| 0 <= k < 23 implies wallpaper_key()[k] != ':' by {
        if k < 12 {
            if k < 6 {
                assert(k == 0 || k == 1 || k == 2 || k == 3 || k == 4 || k == 5);
            } else {
                assert(k == 6 || k == 7 || k == 8 || k == 9 || k == 10 || k == 11);
            }
        } else {
            if k < 18 {
                assert(k == 12 || k == 13 || k == 14 || k == 15 || k == 16 || k == 17);
            } else {
                assert(k == 18 || k == 19 || k == 20 || k == 21 || k == 22);
            }
        }
    }
}

/// The first line of `l + '\n' + rest` spans exactly `l`.
proof fn lemma_line_len_of(l: Seq<char>, rest: Seq<char>)
    requires
        !contains_char(l, '\n'),
    ensures
        line_len(l + seq!['\n'] + rest) == l.len(),
{
    let s = l + seq!['\n'] + rest;
    lemma_line_len(s);
    assert(s[l.len() as int] == '\n');
    assert forall|k: int| 0 <= k < l.len() implies s[k] != '\n' by {
        assert(s[k] == l[k]);
        if l[k] == '\n' {
            assert(contains_char(l, '\n'));
        }
    }
    if line_len(s) < l.len() {
        assert(s[line_len(s) as int] == '\n');
    }
    if line_len(s) > l.len() {
        assert(s[l.len() as int] != '\n');
    }
}

/// Reading back a line written with its `\n` terminator gives the line and
/// then the lines of what follows.
proof fn lemma_lines_cons(l: Seq<char>, rest: Seq<char>)
    requires
        !contains_char(l, '\n'),
        l.len() == 0 || l.last() != '\r',
    ensures
        spec_lines(l + seq!['\n'] + rest) == seq![l] + spec_lines(rest),
{
    let s = l + seq!['\n'] + rest;
    lemma_line_len_of(l, rest);
    assert(s.take(l.len() as int) =~= l);
    assert(strip_cr(l) == l);
    assert(first_line(s) == l);
    assert(s.skip(l.len() as int + 1) =~= rest);
    assert(spec_lines(s) =~= seq![l] + spec_lines(rest));
}

/// Joining the lines after the replaced one back together keeps exactly
/// those lines, for text without carriage returns whose last line is not
/// empty.
proof fn lemma_tail_lines(s: Seq<char>)
    requires
        !contains_char(s, '\r'),
        spec_lines(s).len() > 0 ==> spec_lines(s).last().len() > 0,
    ensures
        spec_lines(spec_tail(s)) == spec_lines(s),
    decreases s.len(),
{
    if s.len() == 0 {
    } else {
        let n = line_len(s);
        lemma_line_len(s);
        assert forall|k: int| 0 <= k < s.len() implies s[k] != '\r' by {
            if s[k] == '\r' {
                assert(contains_char(s, '\r'));
            }
        }
        if n == s.len() {
        } else {
            assert(s.take(n as int).len() == n);
            if n > 0 {
                assert(s.take(n as int).last() == s[n - 1]);
            }
            assert(strip_cr(s.take(n as int)) == s.take(n as int));
            let l = first_line(s);
            assert(l == s.take(n as int));
            assert forall|k: int| 0 <= k < l.len() implies l[k] != '\n' by {
                assert(l[k] == s[k]);
            }
            if contains_char(l, '\n') {
                let k = choose|k: int| 0 <= k < l.len() && l[k] == '\n';
                assert(false);
            }
            let rest = s.skip(n as int + 1);
            assert forall|k: int| 0 <= k < rest.len() implies rest[k] != '\r' by {
                assert(rest[k] == s[n + 1 + k]);
            }
            if contains_char(rest, '\r') {
                let k = choose|k: int| 0 <= k < rest.len() && rest[k] == '\r';
                assert(false);
            }
            if s.len() == n + 1 {
                // The last line of `s`, which the hypothesis makes nonempty.
                assert(rest =~= Seq::<char>::empty());
                assert(rest.len() == 0);
                assert(spec_lines(rest) =~= Seq::<Seq<char>>::empty());
                assert(spec_lines(s) =~= seq![l] + spec_lines(rest));
                assert(spec_lines(s) =~= seq![l]);
                assert(l.len() > 0);
                lemma_line_len(l);
                if line_len(l) < l.len() {
                    assert(l[line_len(l) as int] == '\n');
                    assert(contains_char(l, '\n'));
                }
                assert(line_len(l) == l.len());
                assert(spec_tail(s) == l);
                assert(spec_lines(spec_tail(s)) =~= seq![l]);
            } else {
                assert(spec_tail(s) == l + seq!['\n'] + spec_tail(rest));
                assert(spec_lines(s) == seq![l] + spec_lines(rest));
                assert(rest.len() > 0);
                assert(spec_lines(rest).len() > 0);
                assert((seq![l] + spec_lines(rest)).last() == spec_lines(rest).last());
                lemma_tail_lines(rest);
                lemma_lines_cons(l, spec_tail(rest));
            }
        }
    }
}

/// Rewriting the configuration changes exactly the first line carrying the
/// wallpaper key, when one exists, and keeps every other line verbatim; with
/// no such line every line stays as it is.  Stated for text without carriage
/// returns whose last line is not empty, and for a path without line breaks:
/// a trailing empty line would be dropped by the rewrite, and a carriage
/// return or line break would itself change the line structure.
pub proof fn lemma_rewrite_preserves_lines(content: Seq<char>, path: Seq<char>)
    requires
        !contains_char(content, '\r'),
        !contains_char(path, '\n'),
        !contains_char(path, '\r'),
        spec_lines(content).len() > 0 ==> spec_lines(content).last().len() > 0,
    ensures
        match key_line_index(spec_lines(content)) {
            Option::Some(m) => spec_lines(spec_rewrite(content, path)) == spec_lines(
                content,
            ).update(m as int, spec_new_key_line(path)),
            Option::None => spec_lines(spec_rewrite(content, path)) == spec_lines(content),
        },
    decreases content.len(),
{
    lemma_key_chars();
    let newline = spec_new_key_line(path);
    lemma_contains_concat(wallpaper_key(), " "@, '\n');
    lemma_contains_concat(wallpaper_key() + " "@, path, '\n');
    reveal_strlit(" ");
    assert(" "@ =~= seq![' ']);
    if contains_char(" "@, '\n') {
        let k = choose|k: int| 0 <= k < " "@.len() && " "@[k] == '\n';
        assert(false);
    }
    assert(!contains_char(newline, '\n'));
    assert(newline.len() > 0);
    assert(newline.last() != '\r' || path.len() > 0);
    if path.len() > 0 {
        assert(newline.last() == path.last());
        if path.last() == '\r' {
            assert(contains_char(path, '\r'));
        }
    } else {
        assert(newline.last() == ' ');
    }
    if content.len() == 0 {
    } else {
        let n = line_len(content);
        lemma_line_len(content);
        assert forall|k: int| 0 <= k < content.len() implies content[k] != '\r' by {
            if content[k] == '\r' {
                assert(contains_char(content, '\r'));
            }
        }
        let l = first_line(content);
        if n < content.len() {
            assert(content.take(n as int).len() == n);
            if n > 0 {
                assert(content.take(n as int).last() == content[n - 1]);
            }
            assert(strip_cr(content.take(n as int)) == content.take(n as int));
            assert(l == content.take(n as int));
        }
        assert forall|k: int| 0 <= k < l.len() implies l[k] != '\n' by {
            if n == content.len() {
                assert(l[k] == content[k]);
            } else {
                assert(l[k] == content[k]);
            }
        }
        if contains_char(l, '\n') {
            let k = choose|k: int| 0 <= k < l.len() && l[k] == '\n';
            assert(false);
        }
        if n > 0 && l.len() > 0 {
            assert(l.last() != '\r');
        }
        if is_key_line(l) {
            if n == content.len() {
                assert(spec_lines(content) =~= seq![content]);
                assert(key_line_index(spec_lines(content)) == Option::Some(0 as nat));
                assert(spec_rewrite(content, path) == newline + seq!['\n']);
                lemma_lines_cons(newline, Seq::empty());
                assert(newline + seq!['\n'] =~= newline + seq!['\n'] + Seq::<char>::empty());
                assert(spec_lines(spec_rewrite(content, path)) =~= seq![newline]);
                assert(spec_lines(content).update(0, newline) =~= seq![newline]);
            } else {
                let rest = content.skip(n as int + 1);
                assert forall|k: int| 0 <= k < rest.len() implies rest[k] != '\r' by {
                    assert(rest[k] == content[n + 1 + k]);
                }
                if contains_char(rest, '\r') {
                    let k = choose|k: int| 0 <= k < rest.len() && rest[k] == '\r';
                    assert(false);
                }
                assert(spec_lines(content) == seq![l] + spec_lines(rest));
                assert(key_line_index(spec_lines(content)) == Option::Some(0 as nat));
                assert(spec_rewrite(content, path) == newline + seq!['\n'] + spec_tail(rest));
                if spec_lines(rest).len() > 0 {
                    assert((seq![l] + spec_lines(rest)).last() == spec_lines(rest).last());
                }
                lemma_tail_lines(rest);
                lemma_lines_cons(newline, spec_tail(rest));
                assert(spec_lines(spec_rewrite(content, path)) =~= seq![newline] + spec_lines(
                    rest,
                ));
                assert(spec_lines(content).update(0, newline) =~= seq![newline] + spec_lines(
                    rest,
                ));
            }
        } else {
            if n == content.len() {
                assert(l == content);
                assert(spec_lines(content) =~= seq![l]);
                assert(spec_lines(content).skip(1) =~= Seq::<Seq<char>>::empty());
                assert(key_line_index(spec_lines(content)) is None);
                assert(spec_rewrite(content, path) == l + seq!['\n']);
                lemma_lines_cons(l, Seq::empty());
                assert(l + seq!['\n'] =~= l + seq!['\n'] + Seq::<char>::empty());
                assert(spec_lines(spec_rewrite(content, path)) =~= seq![l]);
            } else {
                let rest = content.skip(n as int + 1);
                assert forall|k: int| 0 <= k < rest.len() implies rest[k] != '\r' by {
                    assert(rest[k] == content[n + 1 + k]);
                }
                if contains_char(rest, '\r') {
                    let k = choose|k: int| 0 <= k < rest.len() && rest[k] == '\r';
                    assert(false);
                }
                assert(spec_lines(content) == seq![l] + spec_lines(rest));
                if spec_lines(rest).len() > 0 {
                    assert((seq![l] + spec_lines(rest)).last() == spec_lines(rest).last());
                }
                lemma_rewrite_preserves_lines(rest, path);
                lemma_lines_cons(l, spec_rewrite(rest, path));
                assert(spec_lines(content).skip(1) =~= spec_lines(rest));
                match key_line_index(spec_lines(rest)) {
                    Option::Some(m) => {
                        lemma_key_line_index_le(spec_lines(rest));
                        assert(key_line_index(spec_lines(content)) == Option::Some(
                            (m + 1) as nat,
                        ));
                        assert(seq![l] + spec_lines(rest).update(m as int, newline) =~= (seq![l]
                            + spec_lines(rest)).update(m as int + 1, newline));
                        assert(spec_lines(spec_rewrite(content, path)) =~= spec_lines(
                            content,
                        ).update(m as int + 1, newline));
                    },
                    Option::None => {
                        assert(spec_lines(content)[0] == l);
                        assert(!is_key_line(spec_lines(content)[0]));
                        assert(key_line_index(spec_lines(content).skip(1)) is None);
                        assert(key_line_index(spec_lines(content)) is None);
                        assert(spec_lines(spec_rewrite(content, path)) =~= spec_lines(content));
                    },
                }
            }
        }
    }
}

/// A freshly written wallpaper line is a key line without line breaks that
/// does not end in a carriage return, for a path without line breaks.
proof fn lemma_new_key_line_clean(path: Seq<char>)
    requires
        !contains_char(path, '\n'),
        !contains_char(path, '\r'),
    ensures
        !contains_char(spec_new_key_line(path), '\n'),
        spec_new_key_line(path).len() > 0,
        spec_new_key_line(path).last() != '\r',
        is_key_line(spec_new_key_line(path)),
{
    lemma_key_chars();
    reveal_strlit(" ");
    assert(" "@ =~= seq![' ']);
    let nl = spec_new_key_line(path);
    lemma_contains_concat(wallpaper_key(), " "@, '\n');
    lemma_contains_concat(wallpaper_key() + " "@, path, '\n');
    if contains_char(" "@, '\n') {
        let k = choose|k: int| 0 <= k < " "@.len() && " "@[k] == '\n';
        assert(false);
    }
    if path.len() > 0 {
        assert(nl.last() == path.last());
        if path.last() == '\r' {
            assert(contains_char(path, '\r'));
        }
    } else {
        assert(nl.last() == ' ');
    }
    assert(nl.take(wallpaper_key().len() as int) =~= wallpaper_key());
}

/// After a rewrite, the first line carrying the key is the freshly written
/// one, provided some line carried the key before the rewrite.
pub proof fn lemma_rewrite_finds_new_line(content: Seq<char>, path: Seq<char>)
    requires
        !contains_char(content, '\r'),
        !contains_char(path, '\n'),
        !contains_char(path, '\r'),
        spec_find_wallpaper_line(content) is Some,
    ensures
        spec_find_wallpaper_line(spec_rewrite(content, path)) == Option::Some(
            spec_new_key_line(path),
        ),
    decreases content.len(),
{
    lemma_new_key_line_clean(path);
    let newline = spec_new_key_line(path);
    let n = line_len(content);
    lemma_line_len(content);
    assert forall|k: int| 0 <= k < content.len() implies content[k] != '\r' by {
        if content[k] == '\r' {
            assert(contains_char(content, '\r'));
        }
    }
    let l = first_line(content);
    if n < content.len() {
        assert(content.take(n as int).len() == n);
        if n > 0 {
            assert(content.take(n as int).last() == content[n - 1]);
        }
        assert(strip_cr(content.take(n as int)) == content.take(n as int));
        assert(l == content.take(n as int));
    }
    if is_key_line(l) {
        let tail = if n == content.len() {
            Seq::<char>::empty()
        } else {
            spec_tail(content.skip(n as int + 1))
        };
        assert(spec_rewrite(content, path) == newline + seq!['\n'] + tail) by {
            if n == content.len() {
                assert(newline + seq!['\n'] + Seq::<char>::empty() =~= newline + seq!['\n']);
            }
        }
        let w = newline + seq!['\n'] + tail;
        lemma_line_len_of(newline, tail);
        assert(w.take(newline.len() as int) =~= newline);
        assert(strip_cr(newline) == newline);
        assert(first_line(w) == newline);
        assert(spec_find_wallpaper_line(w) == Option::Some(newline));
    } else {
        if n == content.len() {
            assert(spec_find_wallpaper_line(content) is None);
        } else {
            let rest = content.skip(n as int + 1);
            assert forall|k: int| 0 <= k < rest.len() implies rest[k] != '\r' by {
                assert(rest[k] == content[n + 1 + k]);
            }
            if contains_char(rest, '\r') {
                let k = choose|k: int| 0 <= k < rest.len() && rest[k] == '\r';
                assert(false);
            }
            assert(spec_find_wallpaper_line(content) == spec_find_wallpaper_line(rest));
            lemma_rewrite_finds_new_line(rest, path);
            let w = l + seq!['\n'] + spec_rewrite(rest, path);
            assert(spec_rewrite(content, path) == w);
            assert forall|k: int| 0 <= k < l.len() implies l[k] != '\n' by {
                assert(l[k] == content[k]);
            }
            if contains_char(l, '\n') {
                let k = choose|k: int| 0 <= k < l.len() && l[k] == '\n';
                assert(false);
            }
            lemma_line_len_of(l, spec_rewrite(rest, path));
            assert(w.take(l.len() as int) =~= l);
            assert(strip_cr(l) == l);
            assert(first_line(w) == l);
            assert(w.skip(l.len() as int + 1) =~= spec_rewrite(rest, path));
            assert(spec_find_wallpaper_line(w) == spec_find_wallpaper_line(
                spec_rewrite(rest, path),
            ));
        }
    }
}

/// Reading the value back out of a freshly written wallpaper line gives the
/// path it was written with: for a path without line breaks, colons or
/// tildes that neither starts nor ends with a blank.
pub proof fn lemma_new_key_line_value(path: Seq<char>, home: Seq<char>)
    requires
        !contains_char(path, ':'),
        !contains_char(path, '~'),
        path.len() > 0 ==> !is_wspace(path[0]) && !is_wspace(path.last()),
    ensures
        spec_wallpaper_value(spec_new_key_line(path), home) == path,
{
    lemma_key_chars();
    reveal_strlit(" ");
    assert(" "@ =~= seq![' ']);
    let l = spec_new_key_line(path);
    assert(l[23] == wallpaper_key()[23]);
    assert forall|k: int| 0 <= k < 23 implies l[k] != ':' by {
        assert(l[k] == wallpaper_key()[k]);
    }
    lemma_find_char_at(l, ':', 23);
    let rest = l.skip(24);
    assert(rest =~= seq![' '] + path);
    assert forall|k: int| 0 <= k < rest.len() implies rest[k] != ':' by {
        if k > 0 {
            assert(rest[k] == path[k - 1]);
            if path[k - 1] == ':' {
                assert(contains_char(path, ':'));
            }
        }
    }
    lemma_find_char_none(rest, ':');
    assert(spec_value_segment(l) == rest);
    assert(is_wspace(rest[0]));
    if 1 < rest.len() {
        assert(rest[1] == path[0]);
    }
    lemma_trim_start_at(rest, 1);
    assert(rest.skip(1) =~= path);
    lemma_trim_end_at(path, path.len() as int);
    assert(path.take(path.len() as int) =~= path);
    assert(spec_trim(spec_value_segment(l)) == path);
    crate::utils::lemma_expand_home_id(path, home);
}

/// Setting a wallpaper and reading the configuration back gives that very
/// path: for configuration text without carriage returns that already
/// carries a wallpaper line, and for a path without line breaks, colons,
/// tildes or surrounding blanks.
pub proof fn lemma_set_then_get(content: Seq<char>, path: Seq<char>, home: Seq<char>)
    requires
        !contains_char(content, '\r'),
        spec_find_wallpaper_line(content) is Some,
        !contains_char(path, '\n'),
        !contains_char(path, '\r'),
        !contains_char(path, ':'),
        !contains_char(path, '~'),
        path.len() > 0 ==> !is_wspace(path[0]) && !is_wspace(path.last()),
    ensures
        spec_find_wallpaper_line(spec_rewrite(content, path)) is Some,
        spec_wallpaper_value(
            spec_find_wallpaper_line(spec_rewrite(content, path)).unwrap(),
            home,
        ) == path,
{
    lemma_rewrite_finds_new_line(content, path);
    lemma_new_key_line_value(path, home);
}

/// Whether an extension names an image format the image crate can read.
/// What the set of recognized extensions is stays with that crate; the
/// answer depends on the extension alone.
pub uninterp spec fn recognized_image_ext(ext: Seq<char>) -> bool;

/// Relies on `image::ImageFormat::from_extension`: whether the extension
/// names an image format the image crate knows.  The match is by the
/// extension's text alone (the crate lowercases it and compares against its
/// fixed list), so the answer is a function of the extension.
#[verifier::external_body]
fn is_image_extension(ext: &str) -> (r: bool)
    ensures
        r == recognized_image_ext(ext@),
{
    image::ImageFormat::from_extension(ext).is_some()
}

/// The position of the last `c` in `s`, if `s` holds one.
pub open spec fn rfind_char(s: Seq<char>, c: char) -> Option<nat>
    decreases s.len(),
{
    if s.len() == 0 {
        Option::None
    } else if s.last() == c {
        Option::Some((s.len() - 1) as nat)
    } else {
        rfind_char(s.drop_last(), c)
    }
}

/// What `rfind_char` finds is the last occurrence; `None` means there is
/// none.
pub proof fn lemma_rfind_char(s: Seq<char>, c: char)
    ensures
        match rfind_char(s, c) {
            Option::Some(i) => i < s.len() && s[i as int] == c && (forall|k: int|
                i < k < s.len() ==> s[k] != c),
            Option::None => forall|k: int| 0 <= k < s.len() ==> s[k] != c,
        },
    decreases s.len(),
{
    if s.len() == 0 {
    } else if s.last() == c {
    } else {
        lemma_rfind_char(s.drop_last(), c);
        match rfind_char(s.drop_last(), c) {
            Option::Some(i) => {
                assert(s.drop_last()[i as int] == s[i as int]);
                assert forall|k: int| i < k < s.len() implies s[k] != c by {
                    if k < s.len() - 1 {
                        assert(s.drop_last()[k] == s[k]);
                    }
                }
            },
            Option::None => {
                assert forall|k: int| 0 <= k < s.len() implies s[k] != c by {
                    if k < s.len() - 1 {
                        assert(s.drop_last()[k] == s[k]);
                    }
                }
            },
        }
    }
}

/// A position that carries `c` with none after it is what `rfind_char`
/// finds.
pub proof fn lemma_rfind_char_at(s: Seq<char>, c: char, i: int)
    requires
        0 <= i < s.len(),
        s[i] == c,
        forall|k: int| i < k < s.len() ==> s[k] != c,
    ensures
        rfind_char(s, c) == Option::Some(i as nat),
    decreases s.len(),
{
    if i == s.len() - 1 {
    } else {
        assert(s.drop_last()[i] == s[i]);
        assert forall|k: int| i < k < s.drop_last().len() implies s.drop_last()[k] != c by {
            assert(s.drop_last()[k] == s[k]);
        }
        lemma_rfind_char_at(s.drop_last(), c, i);
    }
}

/// When no position carries `c`, `rfind_char` finds none.
pub proof fn lemma_rfind_char_none(s: Seq<char>, c: char)
    requires
        forall|k: int| 0 <= k < s.len() ==> s[k] != c,
    ensures
        rfind_char(s, c) is None,
{
    lemma_rfind_char(s, c);
    if rfind_char(s, c) is Some {
        let i = rfind_char(s, c).unwrap();
        assert(s[i as int] == c);
    }
}

/// The file name of `path`: what follows its last `/`, or all of `path`.
pub open spec fn spec_file_name(path: Seq<char>) -> Seq<char> {
    match rfind_char(path, '/') {
        Option::None => path,
        Option::Some(i) => path.skip(i as int + 1),
    }
}

/// The extension of `path`: what follows the last `.` of its file name, when
/// that dot exists and is not the file name's first character (a name that
/// only starts with a dot has no extension).
pub open spec fn spec_extension(path: Seq<char>) -> Option<Seq<char>> {
    let name = spec_file_name(path);
    match rfind_char(name, '.') {
        Option::None => Option::None,
        Option::Some(i) => if i == 0 {
            Option::None
        } else {
            Option::Some(name.skip(i as int + 1))
        },
    }
}

/// Whether a directory entry is kept when loading wallpapers: it is not a
/// directory, and its extension names a recognized image format.
pub open spec fn spec_keeps_entry(e: FileEntry) -> bool {
    !e.is_dir && match spec_extension(e.path@) {
        Option::Some(x) => recognized_image_ext(x),
        Option::None => false,
    }
}

/// The paths of the entries that are kept, in listing order.
pub open spec fn spec_image_files(entries: Seq<FileEntry>) -> Seq<Seq<char>>
    decreases entries.len(),
{
    if entries.len() == 0 {
        Seq::empty()
    } else {
        spec_image_files(entries.drop_last()) + if spec_keeps_entry(entries.last()) {
            seq![entries.last().path@]
        } else {
            Seq::empty()
        }
    }
}

/// The last `c` in `cs[start..end]`, if that range holds one.
fn rfind_range(cs: &Vec<char>, start: usize, end: usize, c: char) -> (r: Option<usize>)
    requires
        start <= end,
        end <= cs@.len(),
    ensures
        match r {
            Option::Some(k) => start <= k < end && cs@[k as int] == c && (forall|m: int|
                k < m < end ==> cs@[m] != c),
            Option::None => forall|m: int| start <= m < end ==> cs@[m] != c,
        },
{
    let mut k = end;
    while k > start
        invariant
            start <= k <= end,
            end <= cs@.len(),
            forall|m: int| k <= m < end ==> cs@[m] != c,
        decreases k,
    {
        if cs[k - 1] == c {
            return Option::Some(k - 1);
        }
        k = k - 1;
    }
    Option::None
}

/// The extension of `path`, as [`spec_extension`] defines it.
fn extension_of(path: &str) -> (r: Option<String>)
    ensures
        match r {
            Option::Some(x) => spec_extension(path@) matches Option::Some(y) && x@ == y,
            Option::None => spec_extension(path@) is None,
        },
{
    let cs = chars_of(path);
    let n = cs.len();
    let name_start = match rfind_range(&cs, 0, n, '/') {
        Option::Some(i) => i + 1,
        Option::None => 0,
    };
    proof {
        if name_start > 0 {
            lemma_rfind_char_at(path@, '/', name_start - 1);
            assert(spec_file_name(path@) =~= path@.subrange(name_start as int, n as int));
        } else {
            lemma_rfind_char_none(path@, '/');
            assert(spec_file_name(path@) =~= path@.subrange(name_start as int, n as int));
        }
    }
    let ghost name = path@.subrange(name_start as int, n as int);
    match rfind_range(&cs, name_start, n, '.') {
        Option::Some(d) => {
            proof {
                assert(name[d - name_start] == path@[d as int]);
                assert forall|k: int| d - name_start < k < name.len() implies name[k] != '.' by {
                    assert(name[k] == path@[name_start + k]);
                }
                lemma_rfind_char_at(name, '.', d - name_start);
            }
            if d == name_start {
                Option::None
            } else {
                let mut ext: Vec<char> = Vec::new();
                append_copies(&mut ext, &cs, d + 1, n);
                let x = string_of(&ext);
                proof {
                    assert(name.skip(d - name_start + 1) =~= path@.subrange(
                        d as int + 1,
                        n as int,
                    ));
                }
                Option::Some(x)
            }
        },
        Option::None => {
            proof {
                assert forall|k: int| 0 <= k < name.len() implies name[k] != '.' by {
                    assert(name[k] == path@[name_start + k]);
                }
                lemma_rfind_char_none(name, '.');
            }
            Option::None
        },
    }
}

/// The paths among the listed entries that name image files: entries that
/// are not directories and whose extension names a recognized image format,
/// in listing order.  Listing the directory itself, and decoding the files
/// this keeps, stay with the caller.
pub fn load_image_files(entries: &Vec<FileEntry>) -> (r: Vec<String>)
    ensures
        views_of_strings(r@) == spec_image_files(entries@),
{
    let mut out: Vec<String> = Vec::new();
    let mut i: usize = 0;
    proof {
        assert(views_of_strings(out@) =~= spec_image_files(entries@.take(0)));
    }
    while i < entries.len()
        invariant
            i <= entries@.len(),
            views_of_strings(out@) == spec_image_files(entries@.take(i as int)),
        decreases entries@.len() - i,
    {
        let keep: bool;
        if entries[i].is_dir {
            keep = false;
        } else {
            match extension_of(entries[i].path.as_str()) {
                Option::Some(x) => {
                    keep = is_image_extension(x.as_str());
                },
                Option::None => {
                    keep = false;
                },
            }
        }
        proof {
            assert(keep == spec_keeps_entry(entries@[i as int]));
        }
        if keep {
            out.push(entries[i].path.clone());
        }
        proof {
            assert(entries@.take(i as int + 1).drop_last() =~= entries@.take(i as int));
            assert(entries@.take(i as int + 1).last() == entries@[i as int]);
            assert(views_of_strings(out@) =~= spec_image_files(entries@.take(i as int + 1)));
        }
        i = i + 1;
    }
    proof {
        assert(entries@.take(entries@.len() as int) =~= entries@);
    }
    out
}

/// Appends `src[start..end]` to `out`.
fn append_copies(out: &mut Vec<char>, src: &Vec<char>, start: usize, end: usize)
    requires
        start <= end,
        end <= src@.len(),
    ensures
        final(out)@ == old(out)@ + src@.subrange(start as int, end as int),
{
    let mut k = start;
    proof {
        assert(old(out)@ + src@.subrange(start as int, start as int) =~= old(out)@);
    }
    while k < end
        invariant
            start <= k <= end,
            end <= src@.len(),
            out@ == old(out)@ + src@.subrange(start as int, k as int),
        decreases end - k,
    {
        proof {
            assert(src@.subrange(start as int, k as int + 1) =~= src@.subrange(
                start as int,
                k as int,
            ).push(src@[k as int]));
        }
        out.push(src[k]);
        k = k + 1;
    }
}

/// The end of the line of `cs` that starts at `i`: the position of the next
/// `\n`, or the end of `cs`.
fn line_span(cs: &Vec<char>, i: usize) -> (j: usize)
    requires
        i <= cs@.len(),
    ensures
        i <= j <= cs@.len(),
        j - i == line_len(cs@.skip(i as int)),
        j < cs@.len() ==> cs@[j as int] == '\n',
{
    let n = cs.len();
    let mut j = i;
    while j < n && cs[j] != '\n'
        invariant
            i <= j <= n,
            n == cs@.len(),
            line_len(cs@.skip(i as int)) == (j - i) + line_len(cs@.skip(j as int)),
        decreases n - j,
    {
        proof {
            lemma_line_len_step(cs@, j as int);
        }
        j = j + 1;
    }
    proof {
        if j < n {
            lemma_line_len_step(cs@, j as int);
        } else {
            assert(cs@.skip(n as int) =~= Seq::<char>::empty());
        }
    }
    j
}

/// Whether `p` is a prefix of `cs[start..end]`.
fn seg_starts_with(cs: &Vec<char>, start: usize, end: usize, p: &Vec<char>) -> (r: bool)
    requires
        start <= end,
        end <= cs@.len(),
    ensures
        r == starts_with(cs@.subrange(start as int, end as int), p@),
{
    let ghost seg = cs@.subrange(start as int, end as int);
    if end - start < p.len() {
        return false;
    }
    let mut k: usize = 0;
    while k < p.len()
        invariant
            k <= p@.len(),
            p@.len() <= end - start,
            start <= end <= cs@.len(),
            seg == cs@.subrange(start as int, end as int),
            forall|m: int| 0 <= m < k ==> cs@[start + m] == p@[m],
        decreases p@.len() - k,
    {
        if cs[start + k] != p[k] {
            proof {
                assert(seg.take(p@.len() as int)[k as int] == cs@[start + k]);
            }
            return false;
        }
        k = k + 1;
    }
    proof {
        assert(seg.take(p@.len() as int) =~= p@);
    }
    true
}

/// Whether `c` is one of the blank characters a value is trimmed of.
fn is_wspace_char(c: char) -> (r: bool)
    ensures
        r == is_wspace(c),
{
    c == ' ' || c == '\t' || c == '\r' || c == '\n'
}

/// The first `c` in `cs[start..end]`, if that range holds one.
fn find_in_range(cs: &Vec<char>, start: usize, end: usize, c: char) -> (r: Option<usize>)
    requires
        start <= end,
        end <= cs@.len(),
    ensures
        match r {
            Option::Some(k) => start <= k < end && cs@[k as int] == c && (forall|m: int|
                start <= m < k ==> cs@[m] != c),
            Option::None => forall|m: int| start <= m < end ==> cs@[m] != c,
        },
{
    let mut k = start;
    while k < end
        invariant
            start <= k <= end,
            end <= cs@.len(),
            forall|m: int| start <= m < k ==> cs@[m] != c,
        decreases end - k,
    {
        if cs[k] == c {
            return Option::Some(k);
        }
        k = k + 1;
    }
    Option::None
}

/// Trimming the start removes exactly the leading run of blank characters.
proof fn lemma_trim_start_at(s: Seq<char>, k: int)
    requires
        0 <= k <= s.len(),
        forall|m: int| 0 <= m < k ==> is_wspace(s[m]),
        k < s.len() ==> !is_wspace(s[k]),
    ensures
        trim_start(s) == s.skip(k),
    decreases k,
{
    if k == 0 {
        assert(s.skip(0) =~= s);
    } else {
        assert(is_wspace(s[0]));
        assert forall|m: int| 0 <= m < k - 1 implies is_wspace(s.skip(1)[m]) by {
            assert(s.skip(1)[m] == s[m + 1]);
        }
        if k - 1 < s.skip(1).len() {
            assert(s.skip(1)[k - 1] == s[k]);
        }
        lemma_trim_start_at(s.skip(1), k - 1);
        assert(s.skip(1).skip(k - 1) =~= s.skip(k));
    }
}

/// Trimming the end removes exactly the trailing run of blank characters.
proof fn lemma_trim_end_at(s: Seq<char>, b: int)
    requires
        0 <= b <= s.len(),
        forall|m: int| b <= m < s.len() ==> is_wspace(s[m]),
        b > 0 ==> !is_wspace(s[b - 1]),
    ensures
        trim_end(s) == s.take(b),
    decreases s.len(),
{
    if b == s.len() {
        assert(s.take(b) =~= s);
    } else {
        assert(is_wspace(s.last()));
        assert forall|m: int| b <= m < s.drop_last().len() implies is_wspace(
            s.drop_last()[m],
        ) by {
            assert(s.drop_last()[m] == s[m]);
        }
        if b > 0 {
            assert(s.drop_last()[b - 1] == s[b - 1]);
        }
        lemma_trim_end_at(s.drop_last(), b);
        assert(s.drop_last().take(b) =~= s.take(b));
    }
}

/// The trimmed value field of the line `s[i..e]`, located by the scanned
/// positions: its first colon at `c1`, its second colon (or the line's end)
/// at `c2`, and the blank-trimmed value spanning `[a, b)`.
proof fn lemma_value_segment_at(s: Seq<char>, i: int, e: int, c1: int, c2: int, a: int, b: int)
    requires
        0 <= i <= c1 < e <= s.len(),
        s[c1] == ':',
        forall|m: int| i <= m < c1 ==> s[m] != ':',
        c1 < c2 <= e,
        forall|m: int| c1 < m < c2 ==> s[m] != ':',
        c2 < e ==> s[c2] == ':',
        c1 + 1 <= a <= c2,
        forall|m: int| c1 + 1 <= m < a ==> is_wspace(s[m]),
        a < c2 ==> !is_wspace(s[a]),
        a <= b <= c2,
        forall|m: int| b <= m < c2 ==> is_wspace(s[m]),
        b > a ==> !is_wspace(s[b - 1]),
    ensures
        spec_trim(spec_value_segment(s.subrange(i, e))) == s.subrange(a, b),
{
    let l = s.subrange(i, e);
    assert(l[c1 - i] == s[c1]);
    assert forall|k: int| 0 <= k < c1 - i implies l[k] != ':' by {
        assert(l[k] == s[i + k]);
    }
    lemma_find_char_at(l, ':', c1 - i);
    let rest = l.skip(c1 - i + 1);
    assert(rest =~= s.subrange(c1 + 1, e));
    if c2 < e {
        assert(rest[c2 - c1 - 1] == s[c2]);
        assert forall|k: int| 0 <= k < c2 - c1 - 1 implies rest[k] != ':' by {
            assert(rest[k] == s[c1 + 1 + k]);
        }
        lemma_find_char_at(rest, ':', c2 - c1 - 1);
        assert(rest.take(c2 - c1 - 1) =~= s.subrange(c1 + 1, c2));
    } else {
        assert forall|k: int| 0 <= k < rest.len() implies rest[k] != ':' by {
            assert(rest[k] == s[c1 + 1 + k]);
        }
        lemma_find_char_none(rest, ':');
        assert(rest =~= s.subrange(c1 + 1, c2));
    }
    let seg0 = s.subrange(c1 + 1, c2);
    assert(spec_value_segment(l) == seg0);
    assert forall|m: int| 0 <= m < a - (c1 + 1) implies is_wspace(seg0[m]) by {
        assert(seg0[m] == s[c1 + 1 + m]);
    }
    if a - (c1 + 1) < seg0.len() {
        assert(seg0[a - (c1 + 1)] == s[a]);
    }
    lemma_trim_start_at(seg0, a - (c1 + 1));
    let t = seg0.skip(a - (c1 + 1));
    assert(t =~= s.subrange(a, c2));
    assert forall|m: int| b - a <= m < t.len() implies is_wspace(t[m]) by {
        assert(t[m] == s[a + m]);
    }
    if b - a > 0 {
        assert(t[b - a - 1] == s[b - 1]);
    }
    lemma_trim_end_at(t, b - a);
    assert(t.take(b - a) =~= s.subrange(a, b));
}

/// The wallpaper path the configuration text names.
///
/// Finds the first line carrying the `regolith.wallpaper.file:` key, takes
/// the text between the line's first and second `:` (or everything after the
/// first when no second one follows), trims blanks around it, and expands `~`
/// to `home`.  When no line carries the key, that is the one error this
/// function reports; reading the file at all is left to the caller.
#[verifier::rlimit(100)]
pub fn wallpaper_path_from_config(content: &str, home: &str) -> (r: crate::Result<String>)
    ensures
        match r {
            Result::Ok(p) => spec_find_wallpaper_line(content@) is Some && p@
                == spec_wallpaper_value(spec_find_wallpaper_line(content@).unwrap(), home@),
            Result::Err(e) => spec_find_wallpaper_line(content@) is None && e
                is NoWallpaperOnRegConfigFile,
        },
{
    let cs = chars_of(content);
    let key = chars_of("regolith.wallpaper.file:");
    let n = cs.len();
    let mut i: usize = 0;
    proof {
        assert(content@.skip(0) =~= content@);
    }
    while i < n
        invariant
            i <= n,
            n == cs@.len(),
            cs@ == content@,
            key@ == wallpaper_key(),
            spec_find_wallpaper_line(content@) == spec_find_wallpaper_line(
                content@.skip(i as int),
            ),
        decreases n - i,
    {
        let ghost s_i = content@.skip(i as int);
        let j = line_span(&cs, i);
        let e = if j < n && j > i && cs[j - 1] == '\r' {
            j - 1
        } else {
            j
        };
        proof {
            lemma_line_len(s_i);
            if j < n {
                assert(s_i.take(line_len(s_i) as int) =~= content@.subrange(i as int, j as int));
                assert(strip_cr(content@.subrange(i as int, j as int)) =~= content@.subrange(
                    i as int,
                    e as int,
                ));
            } else {
                assert(s_i =~= content@.subrange(i as int, e as int));
            }
            assert(first_line(s_i) == content@.subrange(i as int, e as int));
        }
        if seg_starts_with(&cs, i, e, &key) {
            let ghost l = content@.subrange(i as int, e as int);
            proof {
                reveal_strlit("regolith.wallpaper.file:");
                assert(wallpaper_key().len() == 24);
                assert(wallpaper_key()[23] == ':');
                assert(l.take(24)[23] == l[23]);
                assert(l[23] == cs@[i + 23]);
            }
            let c1 = match find_in_range(&cs, i, e, ':') {
                Option::Some(k) => k,
                Option::None => {
                    proof {
                        assert(cs@[i + 23] == ':');
                    }
                    return Result::Err(Error::NoWallpaperOnRegConfigFile);
                },
            };
            let c2 = match find_in_range(&cs, c1 + 1, e, ':') {
                Option::Some(k) => k,
                Option::None => e,
            };
            let mut a = c1 + 1;
            while a < c2 && is_wspace_char(cs[a])
                invariant
                    c1 + 1 <= a <= c2,
                    c2 <= cs@.len(),
                    forall|m: int| c1 + 1 <= m < a ==> is_wspace(cs@[m]),
                decreases c2 - a,
            {
                a = a + 1;
            }
            let mut b = c2;
            while b > a && is_wspace_char(cs[b - 1])
                invariant
                    a <= b <= c2,
                    c2 <= cs@.len(),
                    forall|m: int| b <= m < c2 ==> is_wspace(cs@[m]),
                decreases b,
            {
                b = b - 1;
            }
            let mut seg: Vec<char> = Vec::new();
            append_copies(&mut seg, &cs, a, b);
            let seg_s = string_of(&seg);
            let expanded = expand_home_dir(seg_s.as_str(), home);
            proof {
                assert(spec_find_wallpaper_line(s_i) == Option::Some(l));
                lemma_value_segment_at(
                    content@,
                    i as int,
                    e as int,
                    c1 as int,
                    c2 as int,
                    a as int,
                    b as int,
                );
                assert(seg@ == content@.subrange(a as int, b as int));
                assert(expanded@ == spec_wallpaper_value(l, home@));
            }
            return Result::Ok(expanded);
        } else if j >= n {
            proof {
                assert(spec_find_wallpaper_line(s_i) is None);
            }
            return Result::Err(Error::NoWallpaperOnRegConfigFile);
        } else {
            proof {
                assert(s_i.skip(line_len(s_i) as int + 1) =~= content@.skip(j as int + 1));
                assert(spec_find_wallpaper_line(s_i) == spec_find_wallpaper_line(
                    content@.skip(j as int + 1),
                ));
            }
            i = j + 1;
        }
    }
    proof {
        assert(content@.skip(n as int) =~= Seq::<char>::empty());
    }
    Result::Err(Error::NoWallpaperOnRegConfigFile)
}

/// The configuration text with its wallpaper line replaced.
///
/// Returns `content` rewritten so that the first line carrying the
/// `regolith.wallpaper.file:` key now names `path`; every line before it
/// keeps its text, and so does every line after it.  When no line carries the
/// key, every line of `content` is kept.  Writing the rewritten text back to
/// the file is left to the caller.
#[verifier::rlimit(100)]
pub fn set_wallpaper_on_config(content: &str, path: &str) -> (r: String)
    ensures
        r@ == spec_rewrite(content@, path@),
{
    let cs = chars_of(content);
    let ps = chars_of(path);
    let key = chars_of("regolith.wallpaper.file:");
    let n = cs.len();
    let mut out: Vec<char> = Vec::new();
    let mut i: usize = 0;
    let mut found = false;
    let mut tail_start: usize = n;
    proof {
        assert(content@.skip(0) =~= content@);
        assert(out@ + spec_rewrite(content@, path@) =~= spec_rewrite(content@, path@));
    }
    while i < n && !found
        invariant
            i <= n,
            n == cs@.len(),
            cs@ == content@,
            ps@ == path@,
            key@ == wallpaper_key(),
            !found ==> spec_rewrite(content@, path@) == out@ + spec_rewrite(
                content@.skip(i as int),
                path@,
            ),
            found ==> tail_start <= n && spec_rewrite(content@, path@) == out@ + spec_tail(
                content@.skip(tail_start as int),
            ),
        decreases n - i + (if found {
            0int
        } else {
            1int
        }),
    {
        let ghost s_i = content@.skip(i as int);
        let ghost out0 = out@;
        let j = line_span(&cs, i);
        let e = if j < n && j > i && cs[j - 1] == '\r' {
            j - 1
        } else {
            j
        };
        proof {
            lemma_line_len(s_i);
            if j < n {
                assert(s_i.take(line_len(s_i) as int) =~= content@.subrange(i as int, j as int));
                assert(strip_cr(content@.subrange(i as int, j as int)) =~= content@.subrange(
                    i as int,
                    e as int,
                ));
            } else {
                assert(s_i =~= content@.subrange(i as int, e as int));
            }
            assert(first_line(s_i) == content@.subrange(i as int, e as int));
        }
        let is_key = seg_starts_with(&cs, i, e, &key);
        if is_key {
            append_copies(&mut out, &key, 0, key.len());
            out.push(' ');
            append_copies(&mut out, &ps, 0, ps.len());
            out.push('\n');
            tail_start = if j < n {
                j + 1
            } else {
                n
            };
            found = true;
            proof {
                assert(key@.subrange(0, key@.len() as int) =~= key@);
                assert(ps@.subrange(0, ps@.len() as int) =~= ps@);
                reveal_strlit(" ");
                assert(" "@ =~= seq![' ']);
                assert(out@ =~= out0 + spec_new_key_line(path@) + seq!['\n']);
                if j < n {
                    assert(s_i.skip(line_len(s_i) as int + 1) =~= content@.skip(j as int + 1));
                    assert(spec_rewrite(s_i, path@) == spec_new_key_line(path@) + seq!['\n']
                        + spec_tail(content@.skip(tail_start as int)));
                    assert(out@ + spec_tail(content@.skip(tail_start as int)) =~= out0
                        + spec_rewrite(s_i, path@));
                } else {
                    assert(spec_rewrite(s_i, path@) == spec_new_key_line(path@) + seq!['\n']);
                    assert(content@.skip(n as int) =~= Seq::<char>::empty());
                    assert(spec_tail(content@.skip(tail_start as int)) =~= Seq::<char>::empty());
                    assert(out@ + spec_tail(content@.skip(tail_start as int)) =~= out0
                        + spec_rewrite(s_i, path@));
                }
            }
        } else {
            append_copies(&mut out, &cs, i, e);
            out.push('\n');
            let i_next = if j < n {
                j + 1
            } else {
                n
            };
            proof {
                if j < n {
                    assert(s_i.skip(line_len(s_i) as int + 1) =~= content@.skip(i_next as int));
                    assert(spec_rewrite(s_i, path@) == first_line(s_i) + seq!['\n'] + spec_rewrite(
                        content@.skip(i_next as int),
                        path@,
                    ));
                } else {
                    assert(spec_rewrite(s_i, path@) == first_line(s_i) + seq!['\n']);
                    assert(content@.skip(i_next as int) =~= Seq::<char>::empty());
                }
                assert(out@ + spec_rewrite(content@.skip(i_next as int), path@) =~= out0
                    + spec_rewrite(s_i, path@));
            }
            i = i_next;
        }
    }
    if !found {
        proof {
            assert(content@.skip(n as int) =~= Seq::<char>::empty());
            assert(out@ + spec_rewrite(content@.skip(n as int), path@) =~= out@);
        }
    } else {
        let mut t = tail_start;
        while t < n
            invariant
                t <= n,
                n == cs@.len(),
                cs@ == content@,
                spec_rewrite(content@, path@) == out@ + spec_tail(content@.skip(t as int)),
            decreases n - t,
        {
            let ghost s_t = content@.skip(t as int);
            let ghost out0 = out@;
            let j = line_span(&cs, t);
            let e = if j < n && j > t && cs[j - 1] == '\r' {
                j - 1
            } else {
                j
            };
            proof {
                lemma_line_len(s_t);
                if j < n {
                    assert(s_t.take(line_len(s_t) as int) =~= content@.subrange(
                        t as int,
                        j as int,
                    ));
                    assert(strip_cr(content@.subrange(t as int, j as int)) =~= content@.subrange(
                        t as int,
                        e as int,
                    ));
                } else {
                    assert(s_t =~= content@.subrange(t as int, e as int));
                }
                assert(first_line(s_t) == content@.subrange(t as int, e as int));
            }
            if j >= n {
                append_copies(&mut out, &cs, t, n);
                proof {
                    assert(spec_tail(s_t) == s_t);
                    assert(content@.skip(n as int) =~= Seq::<char>::empty());
                    assert(out@ + spec_tail(content@.skip(n as int)) =~= out0 + spec_tail(s_t));
                }
                t = n;
            } else if j + 1 >= n {
                append_copies(&mut out, &cs, t, e);
                proof {
                    assert(s_t.len() == line_len(s_t) + 1);
                    assert(spec_tail(s_t) == first_line(s_t));
                    assert(content@.skip(n as int) =~= Seq::<char>::empty());
                    assert(out@ + spec_tail(content@.skip(n as int)) =~= out0 + spec_tail(s_t));
                }
                t = n;
            } else {
                append_copies(&mut out, &cs, t, e);
                out.push('\n');
                proof {
                    assert(s_t.len() > line_len(s_t) + 1);
                    assert(s_t.skip(line_len(s_t) as int + 1) =~= content@.skip(j as int + 1));
                    assert(spec_tail(s_t) == first_line(s_t) + seq!['\n'] + spec_tail(
                        content@.skip(j as int + 1),
                    ));
                    assert(out@ + spec_tail(content@.skip(j as int + 1)) =~= out0 + spec_tail(
                        s_t,
                    ));
                }
                t = j + 1;
            }
        }
        proof {
            assert(content@.skip(n as int) =~= Seq::<char>::empty());
            assert(out@ + spec_tail(content@.skip(n as int)) =~= out@);
        }
    }
    string_of(&out)
}

} // verus!
