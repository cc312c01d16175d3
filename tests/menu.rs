use mpd_status::index::index_playlists;
use mpd_status::menu::{compile_menu, mpc_command, shorten_label, track_label_text};
use mpd_status::model::{Command, ConnectionOutcome, MenuNode, Playlist, Track};

fn text(s: &str) -> String {
    s.to_string()
}

fn plain(s: &str) -> MenuNode {
    MenuNode::Plain(text(s))
}

fn action(label: &str, arg: &str) -> MenuNode {
    MenuNode::Actionable {
        label: text(label),
        children: None,
        command: Some(Command {
            program: text("/opt/homebrew/bin/mpc"),
            arg: text(arg),
        }),
        refresh: true,
    }
}

fn track(file: &str, title: Option<&str>, artist: Option<&str>) -> Track {
    Track {
        file: text(file),
        title: title.map(text),
        artist: artist.map(text),
    }
}

fn playlist(name: &str, files: &[&str]) -> Playlist {
    Playlist {
        name: text(name),
        files: files.iter().map(|f| text(f)).collect(),
    }
}

fn lists(names: &[&str]) -> MenuNode {
    MenuNode::Actionable {
        label: text("In playlists"),
        children: Some(names.iter().map(|n| plain(n)).collect()),
        command: None,
        refresh: false,
    }
}

#[test]
fn failed_connection_shows_reason() {
    let index = index_playlists(Vec::new());
    let menu = compile_menu(
        &ConnectionOutcome::Failed(text("connection refused")),
        &None,
        &index,
    );
    assert_eq!(
        menu,
        vec![plain("\u{1f507}"), MenuNode::Separator, plain("connection refused")]
    );
}

#[test]
fn idle_menu_has_no_next() {
    let index = index_playlists(Vec::new());
    let menu = compile_menu(&ConnectionOutcome::Connected, &None, &index);
    assert_eq!(
        menu,
        vec![
            plain("\u{266b}"),
            MenuNode::Separator,
            action("pause/play", "toggle"),
            action("clear", "clear"),
        ]
    );
    assert!(!menu.contains(&action("next", "next")));
}

#[test]
fn playing_track_lists_sorted_playlists() {
    let index = index_playlists(vec![
        playlist("Party", &["a.mp3"]),
        playlist("Chill", &["b.mp3", "a.mp3"]),
    ]);
    let current = Some(track("a.mp3", Some("Song"), Some("Artist")));
    let menu = compile_menu(&ConnectionOutcome::Connected, &current, &index);
    assert_eq!(
        menu,
        vec![
            plain("Song - Artist"),
            MenuNode::Separator,
            lists(&["Chill", "Party"]),
            MenuNode::Separator,
            action("pause/play", "toggle"),
            action("clear", "clear"),
            action("next", "next"),
        ]
    );
}

#[test]
fn track_in_no_playlist_has_no_playlists_line() {
    let index = index_playlists(vec![playlist("Party", &["b.mp3"])]);
    let current = Some(track("a.mp3", Some("Song"), Some("Artist")));
    let menu = compile_menu(&ConnectionOutcome::Connected, &current, &index);
    assert_eq!(
        menu,
        vec![
            plain("Song - Artist"),
            MenuNode::Separator,
            MenuNode::Separator,
            action("pause/play", "toggle"),
            action("clear", "clear"),
            action("next", "next"),
        ]
    );
}

#[test]
fn label_of_exactly_the_limit_is_whole() {
    let index = index_playlists(Vec::new());
    // 12 + 3 + 10 = 25 characters
    let current = Some(track("a.mp3", Some("Twelve chars"), Some("Ten chars!")));
    let menu = compile_menu(&ConnectionOutcome::Connected, &current, &index);
    assert_eq!(menu[0], plain("Twelve chars - Ten chars!"));
    assert_eq!(menu[1], MenuNode::Separator);
    assert_eq!(menu[2], MenuNode::Separator);
    assert_eq!(menu.len(), 6);
}

#[test]
fn long_label_is_cut_and_shown_whole_below() {
    let index = index_playlists(vec![playlist("Mix", &["long.mp3"])]);
    let current = Some(track("long.mp3", Some("A Very Long Song Title"), Some("Band")));
    let menu = compile_menu(&ConnectionOutcome::Connected, &current, &index);
    assert_eq!(
        menu,
        vec![
            plain("A Very Long Song Title - \u{2026}"),
            MenuNode::Separator,
            plain("A Very Long Song Title - Band"),
            lists(&["Mix"]),
            MenuNode::Separator,
            action("pause/play", "toggle"),
            action("clear", "clear"),
            action("next", "next"),
        ]
    );
}

#[test]
fn missing_fields_use_stand_ins() {
    let index = index_playlists(Vec::new());
    let current = Some(track("a.mp3", None, None));
    let menu = compile_menu(&ConnectionOutcome::Connected, &current, &index);
    assert_eq!(menu[0], plain("(no title) - (no artist)"));
    assert_eq!(menu[2], MenuNode::Separator);
}

#[test]
fn truncation_counts_characters_not_bytes() {
    let full = text("\u{e9}\u{e9}\u{e9}\u{e9}\u{e9}\u{e9}\u{e9}\u{e9}\u{e9}\u{e9} - \u{e9}\u{e9}\u{e9}\u{e9}\u{e9}\u{e9}\u{e9}\u{e9}\u{e9}\u{e9}\u{e9}\u{e9}");
    assert_eq!(full.chars().count(), 25);
    assert_eq!(shorten_label(&full), full);
    let longer = format!("{}x", full);
    assert_eq!(shorten_label(&longer), format!("{}\u{2026}", full));
}

#[test]
fn shorten_label_at_one_over_the_limit() {
    let label = text("abcdefghijklmnopqrstuvwxyz");
    assert_eq!(shorten_label(&label), text("abcdefghijklmnopqrstuvwxy\u{2026}"));
    assert_eq!(shorten_label(&text("")), text(""));
}

#[test]
fn track_label_joins_title_and_artist() {
    assert_eq!(
        track_label_text(&track("a.mp3", Some("Song"), None)),
        text("Song - (no artist)")
    );
    assert_eq!(
        track_label_text(&track("a.mp3", None, Some("Artist"))),
        text("(no title) - Artist")
    );
}

#[test]
fn playlist_names_sort_by_code_point() {
    let index = index_playlists(vec![
        playlist("b", &["a.mp3"]),
        playlist("ab", &["a.mp3"]),
        playlist("B", &["a.mp3"]),
        playlist("a", &["a.mp3", "a.mp3"]),
    ]);
    let current = Some(track("a.mp3", Some("S"), Some("A")));
    let menu = compile_menu(&ConnectionOutcome::Connected, &current, &index);
    assert_eq!(menu[2], lists(&["B", "a", "ab", "b"]));
}

#[test]
fn compiling_twice_gives_the_same_menu() {
    let index = index_playlists(vec![
        playlist("Party", &["a.mp3"]),
        playlist("Chill", &["a.mp3"]),
    ]);
    let current = Some(track("a.mp3", Some("A Very Long Song Title"), Some("Band")));
    let first = compile_menu(&ConnectionOutcome::Connected, &current, &index);
    let second = compile_menu(&ConnectionOutcome::Connected, &current, &index);
    assert_eq!(first, second);
}

#[test]
fn control_action_runs_the_player_and_refreshes() {
    assert_eq!(mpc_command("next", "next"), action("next", "next"));
    assert_eq!(mpc_command("pause/play", "toggle"), action("pause/play", "toggle"));
}
