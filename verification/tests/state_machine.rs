//! The picker's state machine: starting up, loading, selecting, and the
//! path editor.

use regolith_wallpaper::Action;
use regolith_wallpaper::Configuration;
use regolith_wallpaper::Message;
use regolith_wallpaper::RegolithWallpaperApp;
use regolith_wallpaper::StatusBar;
use regolith_wallpaper::UiEvent;
use regolith_wallpaper::UiKey;
use regolith_wallpaper::WallpaperImage;
use regolith_wallpaper::WallpaperPathMessage;

const HOME: &str = "/home/u";

fn app_with_path(path: &str) -> RegolithWallpaperApp {
    let config = Configuration {
        wallpapers_path: Some(String::from(path)),
        max_images: None,
    };
    RegolithWallpaperApp::new(config).0
}

fn selected_count(app: &RegolithWallpaperApp) -> usize {
    app.images.iter().filter(|im| im.selected).count()
}

#[test]
fn new_with_configured_path_lists_it() {
    let config = Configuration {
        wallpapers_path: Some(String::from("/walls")),
        max_images: Some(7),
    };
    let (app, actions) = RegolithWallpaperApp::new(config);
    assert!(!app.wallpaper_path_show);
    assert!(app.images.is_empty());
    assert_eq!(app.max_images, Some(7));
    assert_eq!(app.wallpaper_path.input, "/walls");
    assert_eq!(actions.len(), 2);
    assert!(matches!(&actions[0], Action::LoadImageFiles { path } if path == "/walls"));
    assert!(matches!(&actions[1], Action::LoadRegolithConfig));
}

#[test]
fn new_without_path_asks_for_one() {
    let (app, actions) = RegolithWallpaperApp::new(Configuration::default());
    assert!(app.wallpaper_path_show);
    assert_eq!(app.wallpaper_path.input, "");
    assert_eq!(actions.len(), 2);
    assert!(matches!(&actions[0], Action::FocusPathInput));
    assert!(matches!(&actions[1], Action::LoadRegolithConfig));
}

#[test]
fn title_names_the_utility() {
    let (app, _) = RegolithWallpaperApp::new(Configuration::default());
    assert_eq!(app.title(), "regolith-wallpaper");
}

#[test]
fn escape_and_q_close_the_window() {
    let mut app = app_with_path("/walls");
    for key in [UiKey::Escape, UiKey::Q] {
        let actions = app.update(Message::EventOcurred(UiEvent::KeyPressed(key)), HOME, false);
        assert_eq!(actions.len(), 1);
        assert!(matches!(actions[0], Action::CloseWindow));
    }
    let actions = app.update(Message::EventOcurred(UiEvent::CloseRequested), HOME, false);
    assert!(matches!(actions[0], Action::CloseWindow));
    let actions = app.update(
        Message::EventOcurred(UiEvent::KeyPressed(UiKey::Other)),
        HOME,
        false,
    );
    assert!(actions.is_empty());
}

#[test]
fn loaded_images_fill_the_grid() {
    let mut app = app_with_path("/walls");
    let a = WallpaperImage::from_path(0, String::from("/walls/a.png"));
    let b = WallpaperImage::from_path(1, String::from("/walls/b.png"));
    assert!(app.update(Message::LoadedImage(Ok(a)), HOME, false).is_empty());
    assert!(app.update(Message::LoadedImage(Ok(b)), HOME, false).is_empty());
    assert_eq!(app.images.len(), 2);
    assert_eq!(app.images[0].path, "/walls/a.png");
    assert!(!app.images[0].selected);
    assert_eq!(selected_count(&app), 0);
}

#[test]
fn loaded_paths_become_load_actions_in_order() {
    let mut app = app_with_path("/walls");
    let paths = vec![String::from("/walls/a.png"), String::from("/walls/b.png")];
    let actions = app.update(Message::LoadedPaths(Ok(paths)), HOME, false);
    assert_eq!(actions.len(), 2);
    assert!(matches!(&actions[0], Action::LoadImage { id: 0, path } if path == "/walls/a.png"));
    assert!(matches!(&actions[1], Action::LoadImage { id: 1, path } if path == "/walls/b.png"));
}

#[test]
fn loaded_paths_respect_the_image_limit() {
    let config = Configuration {
        wallpapers_path: Some(String::from("/walls")),
        max_images: Some(2),
    };
    let (mut app, _) = RegolithWallpaperApp::new(config);
    let paths = vec![
        String::from("/walls/a.png"),
        String::from("/walls/b.png"),
        String::from("/walls/c.png"),
    ];
    let actions = app.update(Message::LoadedPaths(Ok(paths)), HOME, false);
    assert_eq!(actions.len(), 2);
}

#[test]
fn selecting_marks_one_image_and_sets_the_wallpaper() {
    let mut app = app_with_path("/walls");
    for (i, p) in ["/walls/a.png", "/walls/b.png", "/walls/c.png"].iter().enumerate() {
        let img = WallpaperImage::from_path(i, String::from(*p));
        app.update(Message::LoadedImage(Ok(img)), HOME, false);
    }
    let actions = app.update(Message::SelectImage(1), HOME, false);
    assert_eq!(actions.len(), 1);
    assert!(matches!(&actions[0], Action::SetWallpaper { path } if path == "/walls/b.png"));
    assert!(app.images[1].selected);
    assert_eq!(selected_count(&app), 1);

    // Selecting another image moves the mark.
    let actions = app.update(Message::SelectImage(2), HOME, false);
    assert!(matches!(&actions[0], Action::SetWallpaper { path } if path == "/walls/c.png"));
    assert!(!app.images[1].selected);
    assert!(app.images[2].selected);
    assert_eq!(selected_count(&app), 1);
}

#[test]
fn selecting_an_unknown_slot_only_unselects() {
    let mut app = app_with_path("/walls");
    let img = WallpaperImage::from_path(0, String::from("/walls/a.png"));
    app.update(Message::LoadedImage(Ok(img)), HOME, false);
    app.update(Message::SelectImage(0), HOME, false);
    assert_eq!(selected_count(&app), 1);
    let actions = app.update(Message::SelectImage(9), HOME, false);
    assert!(actions.is_empty());
    assert_eq!(selected_count(&app), 0);
}

#[test]
fn random_pick_selects_some_image() {
    let mut app = app_with_path("/walls");
    let paths = ["/walls/a.png", "/walls/b.png", "/walls/c.png"];
    for (i, p) in paths.iter().enumerate() {
        let img = WallpaperImage::from_path(i, String::from(*p));
        app.update(Message::LoadedImage(Ok(img)), HOME, false);
    }
    let actions = app.update(Message::PickRandomImage, HOME, false);
    assert_eq!(actions.len(), 1);
    match &actions[0] {
        Action::SetWallpaper { path } => assert!(paths.contains(&path.as_str())),
        other => panic!("unexpected action {:?}", other),
    }
    assert_eq!(selected_count(&app), 1);
}

#[test]
fn random_pick_with_no_images_does_nothing() {
    let mut app = app_with_path("/walls");
    let actions = app.update(Message::PickRandomImage, HOME, false);
    assert!(actions.is_empty());
    assert_eq!(selected_count(&app), 0);
}

#[test]
fn status_bar_shows_results() {
    let mut app = app_with_path("/walls");
    app.update(
        Message::UpdateStatusBar(Ok(String::from("all is well"))),
        HOME,
        false,
    );
    assert!(matches!(&app.status_bar, StatusBar::Success(s) if s == "all is well"));
    app.update(
        Message::UpdateStatusBar(Err(regolith_wallpaper::Error::NoHomeDir)),
        HOME,
        false,
    );
    assert!(matches!(&app.status_bar, StatusBar::Error(s) if s == "No home directory found."));
}

#[test]
fn accepting_an_existing_path_records_and_saves_it() {
    let (mut app, _) = RegolithWallpaperApp::new(Configuration::default());
    app.update(
        Message::WallpaperPathMessage(WallpaperPathMessage::InputEdit(String::from("~/walls"))),
        HOME,
        false,
    );
    assert_eq!(app.wallpaper_path.input, "~/walls");
    let actions = app.update(
        Message::WallpaperPathMessage(WallpaperPathMessage::Accept),
        HOME,
        true,
    );
    assert_eq!(app.wallpaper_path.input, "/home/u/walls");
    assert_eq!(app.wallpaper_path.path.as_deref(), Some("/home/u/walls"));
    assert!(!app.wallpaper_path_show);
    assert_eq!(
        app.configuration.wallpapers_path.as_deref(),
        Some("/home/u/walls")
    );
    assert!(
        matches!(&app.status_bar, StatusBar::Success(s) if s == "Path setted to \"/home/u/walls\"")
    );
    assert_eq!(actions.len(), 2);
    match &actions[0] {
        Action::SaveConfig { config } => {
            assert_eq!(config.wallpapers_path.as_deref(), Some("/home/u/walls"));
        },
        other => panic!("unexpected action {:?}", other),
    }
    assert!(matches!(&actions[1], Action::LoadImageFiles { path } if path == "/home/u/walls"));
}

#[test]
fn accepting_a_missing_path_reports_it() {
    let (mut app, _) = RegolithWallpaperApp::new(Configuration::default());
    app.update(
        Message::WallpaperPathMessage(WallpaperPathMessage::InputEdit(String::from("/nowhere"))),
        HOME,
        false,
    );
    let actions = app.update(
        Message::WallpaperPathMessage(WallpaperPathMessage::Accept),
        HOME,
        false,
    );
    assert!(actions.is_empty());
    assert!(app.wallpaper_path.path.is_none());
    assert!(matches!(&app.status_bar, StatusBar::Error(s) if s == "Invalid path: /nowhere"));
}

#[test]
fn cancelling_restores_the_accepted_path() {
    let mut app = app_with_path("/walls");
    app.update(
        Message::WallpaperPathMessage(WallpaperPathMessage::InputEdit(String::from("/typo"))),
        HOME,
        false,
    );
    assert_eq!(app.wallpaper_path.input, "/typo");
    let actions = app.update(
        Message::WallpaperPathMessage(WallpaperPathMessage::Cancel),
        HOME,
        false,
    );
    assert!(actions.is_empty());
    assert_eq!(app.wallpaper_path.input, "/walls");
    assert!(!app.wallpaper_path_show);
}

#[test]
fn toggling_the_editor_shows_and_hides_it() {
    let mut app = app_with_path("/walls");
    app.update(
        Message::WallpaperPathToogle { show: true, msg: None },
        HOME,
        false,
    );
    assert!(app.wallpaper_path_show);
    app.update(
        Message::WallpaperPathToogle {
            show: false,
            msg: Some(Ok(String::from("done"))),
        },
        HOME,
        false,
    );
    assert!(!app.wallpaper_path_show);
    assert!(matches!(&app.status_bar, StatusBar::Success(s) if s == "done"));
}

#[test]
fn current_wallpaper_flows_from_config_lookup() {
    let mut app = app_with_path("/walls");
    let actions = app.update(
        Message::CurrentWallpaperPath(Ok(String::from("/walls/cur.png"))),
        HOME,
        false,
    );
    assert!(matches!(&actions[0], Action::LoadCurrentImage { path } if path == "/walls/cur.png"));
    let img = WallpaperImage::from_path(0, String::from("/walls/cur.png"));
    app.update(Message::CurrentWallpaperImage(Ok(img)), HOME, false);
    assert_eq!(
        app.current_wallpaper.as_ref().unwrap().path,
        "/walls/cur.png"
    );
}

#[test]
fn failures_reach_the_right_places() {
    let mut app = app_with_path("/walls");
    app.update(
        Message::CurrentWallpaperPath(Err(regolith_wallpaper::Error::NoRegConfigFile)),
        HOME,
        false,
    );
    assert_eq!(
        app.current_wallpaper_error.as_deref(),
        Some("Regolith config file not found (~/.config/regolith3/Xresources).")
    );
    app.update(
        Message::LoadedPaths(Err(regolith_wallpaper::Error::UnexpectedError(String::from(
            "boom",
        )))),
        HOME,
        false,
    );
    assert!(matches!(&app.status_bar, StatusBar::Error(s) if s == "boom"));
    app.update(
        Message::ConfigSaved(Err(regolith_wallpaper::Error::FailedToWriteFile(String::from(
            "/cfg",
        )))),
        HOME,
        false,
    );
    assert!(matches!(&app.status_bar, StatusBar::Error(s) if s == "Failed to write file: /cfg"));
    app.update(Message::ConfigSaved(Ok(())), HOME, false);
    assert!(matches!(&app.status_bar, StatusBar::Error(_)));
}

#[test]
fn wallpaper_image_select_hands_out_its_path() {
    let mut img = WallpaperImage::from_path(3, String::from("/walls/a.png"));
    assert_eq!(img.id, 3);
    assert!(!img.selected);
    assert_eq!(img.select(), "/walls/a.png");
}

#[test]
fn default_configuration_is_empty() {
    let config = Configuration::default();
    assert!(config.wallpapers_path.is_none());
    assert!(config.max_images.is_none());
}
