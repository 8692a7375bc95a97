//! The regolith configuration text: reading the wallpaper line and
//! rewriting it.

use regolith_wallpaper::set_wallpaper_on_config;
use regolith_wallpaper::wallpaper_path_from_config;
use regolith_wallpaper::Error;
use regolith_wallpaper::expand_home_dir;

#[test]
fn reads_the_wallpaper_line() {
    let content = "regolith.look: lascaille\nregolith.wallpaper.file: /pics/a.png\nregolith.bar: 3\n";
    let got = wallpaper_path_from_config(content, "/home/u").unwrap();
    assert_eq!(got, "/pics/a.png");
}

#[test]
fn reads_the_first_wallpaper_line() {
    let content = "regolith.wallpaper.file: /pics/first.png\nregolith.wallpaper.file: /pics/second.png\n";
    let got = wallpaper_path_from_config(content, "/home/u").unwrap();
    assert_eq!(got, "/pics/first.png");
}

#[test]
fn expands_home_in_the_value() {
    let content = "regolith.wallpaper.file: ~/pics/a.png\n";
    let got = wallpaper_path_from_config(content, "/home/u").unwrap();
    assert_eq!(got, "/home/u/pics/a.png");
}

#[test]
fn trims_blanks_around_the_value() {
    let content = "regolith.wallpaper.file:   /pics/a.png\t\n";
    let got = wallpaper_path_from_config(content, "/home/u").unwrap();
    assert_eq!(got, "/pics/a.png");
}

#[test]
fn value_stops_at_a_second_colon() {
    let content = "regolith.wallpaper.file: /pics/a.png:ignored\n";
    let got = wallpaper_path_from_config(content, "/home/u").unwrap();
    assert_eq!(got, "/pics/a.png");
}

#[test]
fn missing_key_is_reported() {
    let content = "regolith.look: lascaille\nregolith.bar: 3\n";
    let got = wallpaper_path_from_config(content, "/home/u");
    assert!(matches!(got, Err(Error::NoWallpaperOnRegConfigFile)));
}

#[test]
fn empty_config_is_reported() {
    let got = wallpaper_path_from_config("", "/home/u");
    assert!(matches!(got, Err(Error::NoWallpaperOnRegConfigFile)));
}

#[test]
fn replaces_the_wallpaper_line_and_keeps_the_rest() {
    let content = "regolith.look: lascaille\nregolith.wallpaper.file: /old.png\nregolith.bar: 3";
    let got = set_wallpaper_on_config(content, "/new.png");
    assert_eq!(
        got,
        "regolith.look: lascaille\nregolith.wallpaper.file: /new.png\nregolith.bar: 3"
    );
}

#[test]
fn replaces_only_the_first_wallpaper_line() {
    let content = "regolith.wallpaper.file: /a.png\nregolith.wallpaper.file: /b.png";
    let got = set_wallpaper_on_config(content, "/new.png");
    assert_eq!(
        got,
        "regolith.wallpaper.file: /new.png\nregolith.wallpaper.file: /b.png"
    );
}

#[test]
fn keeps_every_line_when_no_key_stands_in_the_text() {
    let content = "regolith.look: lascaille\nregolith.bar: 3";
    let got = set_wallpaper_on_config(content, "/new.png");
    assert_eq!(got, "regolith.look: lascaille\nregolith.bar: 3\n");
}

#[test]
fn replaces_a_trailing_wallpaper_line() {
    let content = "a: 1\nregolith.wallpaper.file: /old.png\n";
    let got = set_wallpaper_on_config(content, "/new.png");
    assert_eq!(got, "a: 1\nregolith.wallpaper.file: /new.png\n");
}

#[test]
fn rewrite_strips_carriage_returns_like_the_line_reader() {
    let content = "a: 1\r\nregolith.wallpaper.file: /old.png\r\nb: 2\r\n";
    let got = set_wallpaper_on_config(content, "/new.png");
    assert_eq!(got, "a: 1\nregolith.wallpaper.file: /new.png\nb: 2");
}

#[test]
fn rewrite_of_empty_text_is_empty() {
    assert_eq!(set_wallpaper_on_config("", "/new.png"), "");
}

#[test]
fn set_then_get_round_trip() {
    let content = "regolith.look: lascaille\nregolith.wallpaper.file: /old.png\nregolith.bar: 3";
    let written = set_wallpaper_on_config(content, "/pics/new.png");
    let got = wallpaper_path_from_config(&written, "/home/u").unwrap();
    assert_eq!(got, "/pics/new.png");
}

#[test]
fn expand_home_replaces_every_tilde() {
    assert_eq!(expand_home_dir("~/pics", "/home/u"), "/home/u/pics");
    assert_eq!(expand_home_dir("~/a~b", "/h"), "/h/a/hb");
    assert_eq!(expand_home_dir("/absolute", "/home/u"), "/absolute");
    assert_eq!(expand_home_dir("", "/home/u"), "");
}

#[test]
fn error_messages_read_as_expected() {
    assert_eq!(
        Error::FailedToRunRefresh.message(),
        "Failed to run `regolith-look refresh`."
    );
    assert_eq!(
        Error::NoRegConfigFile.message(),
        "Regolith config file not found (~/.config/regolith3/Xresources)."
    );
    assert_eq!(
        Error::FailedReadRegConfigFile.message(),
        "Failed to read regolith config file (~/.config/regolith3/Xresources)."
    );
    assert_eq!(
        Error::NoWallpaperOnRegConfigFile.message(),
        "No wallpaper setting (`regolith.wallpaper.file`) on config file (~/.config/regolith3/Xresources)."
    );
    assert_eq!(
        Error::FailedToRead(String::from("/f")).message(),
        "Failed to read file: /f"
    );
    assert_eq!(
        Error::FailedToWriteFile(String::from("/f")).message(),
        "Failed to write file: /f"
    );
    assert_eq!(
        Error::InvalidPath(String::from("/f")).message(),
        "Invalid path: /f"
    );
    assert_eq!(Error::NoHomeDir.message(), "No home directory found.");
    assert_eq!(
        Error::UnexpectedError(String::from("boom")).message(),
        "boom"
    );
}
