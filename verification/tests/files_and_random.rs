//! Filtering directory listings down to image files, and the random pick.

use regolith_wallpaper::load_image_files;
use regolith_wallpaper::pick_random_image;
use regolith_wallpaper::FileEntry;

fn file(path: &str) -> FileEntry {
    FileEntry { path: String::from(path), is_dir: false }
}

fn dir(path: &str) -> FileEntry {
    FileEntry { path: String::from(path), is_dir: true }
}

#[test]
fn keeps_image_files_only() {
    let entries = vec![
        file("/w/a.png"),
        file("/w/notes.txt"),
        file("/w/b.jpg"),
        dir("/w/sub.png"),
        file("/w/c.jpeg"),
        file("/w/noext"),
        file("/w/d.webp"),
    ];
    let got = load_image_files(&entries);
    assert_eq!(got, vec!["/w/a.png", "/w/b.jpg", "/w/c.jpeg", "/w/d.webp"]);
}

#[test]
fn extension_match_ignores_case() {
    let entries = vec![file("/w/UPPER.PNG"), file("/w/Mixed.JpG")];
    let got = load_image_files(&entries);
    assert_eq!(got, vec!["/w/UPPER.PNG", "/w/Mixed.JpG"]);
}

#[test]
fn hidden_files_without_extension_are_dropped() {
    let entries = vec![file("/w/.png"), file("/w/.hidden")];
    let got = load_image_files(&entries);
    assert!(got.is_empty());
}

#[test]
fn dots_in_directories_do_not_count() {
    let entries = vec![file("/w.png/readme"), file("/w.d/photo.gif")];
    let got = load_image_files(&entries);
    assert_eq!(got, vec!["/w.d/photo.gif"]);
}

#[test]
fn unknown_extensions_are_dropped() {
    let entries = vec![file("/w/archive.zip"), file("/w/page.html")];
    let got = load_image_files(&entries);
    assert!(got.is_empty());
}

#[test]
fn empty_listing_gives_no_files() {
    let got = load_image_files(&Vec::new());
    assert!(got.is_empty());
}

#[test]
fn random_pick_of_nothing_is_nothing() {
    let got = pick_random_image(&Vec::new());
    assert!(got.is_none());
}

#[test]
fn random_pick_of_one_is_that_one() {
    let paths = vec![String::from("/w/only.png")];
    let got = pick_random_image(&paths);
    assert_eq!(got.unwrap(), "/w/only.png");
}

#[test]
fn random_pick_is_a_member() {
    let paths = vec![
        String::from("/w/a.png"),
        String::from("/w/b.png"),
        String::from("/w/c.png"),
    ];
    for _ in 0..20 {
        let got = pick_random_image(&paths).unwrap();
        assert!(paths.contains(&got));
    }
}
