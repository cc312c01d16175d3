use mpd_status::index::index_playlists;
use mpd_status::model::Playlist;

fn text(s: &str) -> String {
    s.to_string()
}

fn playlist(name: &str, files: &[&str]) -> Playlist {
    Playlist {
        name: text(name),
        files: files.iter().map(|f| text(f)).collect(),
    }
}

#[test]
fn repeated_track_is_listed_once() {
    let index = index_playlists(vec![
        playlist("A", &["x.mp3", "x.mp3", "y.mp3"]),
        playlist("B", &["x.mp3"]),
    ]);
    let mut names = index.names_for(&text("x.mp3"));
    names.sort();
    assert_eq!(names, vec![text("A"), text("B")]);
    assert_eq!(index.names_for(&text("y.mp3")), vec![text("A")]);
}

#[test]
fn forward_mapping_keeps_repeats_and_order() {
    let given = vec![
        playlist("A", &["x.mp3", "x.mp3", "y.mp3"]),
        playlist("Empty", &[]),
    ];
    let index = index_playlists(given.clone());
    assert_eq!(index.by_name, given);
}

#[test]
fn empty_playlist_set_gives_empty_index() {
    let index = index_playlists(Vec::new());
    assert!(index.by_name.is_empty());
    assert!(index.by_file.is_empty());
    assert!(index.names_for(&text("x.mp3")).is_empty());
}

#[test]
fn unlisted_file_has_no_playlists() {
    let index = index_playlists(vec![playlist("A", &["x.mp3"])]);
    assert!(index.names_for(&text("z.mp3")).is_empty());
}

#[test]
fn each_file_has_one_entry() {
    let index = index_playlists(vec![
        playlist("A", &["x.mp3", "y.mp3"]),
        playlist("B", &["y.mp3", "x.mp3", "y.mp3"]),
    ]);
    assert_eq!(index.by_file.len(), 2);
    for entry in &index.by_file {
        assert_eq!(entry.playlists.len(), 2);
    }
}
