//! The menu compiler: from what the daemon reported to the menu tree.
use vstd::prelude::*;
use vstd::string::*;
use crate::index::PlaylistIndex;
use crate::model::{Command, CommandView, ConnectionOutcome, MenuNode, NodeView, Track};
use crate::order::{lemma_sorted_of, sort_strings, sorted_of, views};

verus! {

/// The longest track label that is shown whole, in characters.
pub const MAX_LABEL_CHARS: usize = 25;

/// The player's control program, which the action lines run.
pub open spec fn control_program() -> Seq<char> {
    "/opt/homebrew/bin/mpc"@
}

/// The model of an action line: run the control program with `arg`, then
/// refresh the menu.
pub open spec fn action_view(label: Seq<char>, arg: Seq<char>) -> NodeView {
    NodeView::Actionable {
        label,
        children: None,
        command: Some(CommandView { program: control_program(), arg }),
        refresh: true,
    }
}

/// The models of a sequence of menu lines.
pub open spec fn nodes_view(s: Seq<MenuNode>) -> Seq<NodeView> {
    s.map_values(|n: MenuNode| n.view())
}

/// The text of `o`, or `fallback` where there is none.
pub open spec fn or_text(o: Option<String>, fallback: Seq<char>) -> Seq<char> {
    match o {
        Some(s) => s@,
        None => fallback,
    }
}

/// `"{title} - {artist}"`, with a stand-in for a missing field.
pub open spec fn track_label(t: Track) -> Seq<char> {
    or_text(t.title, "(no title)"@) + " - "@ + or_text(t.artist, "(no artist)"@)
}

/// `full` where it fits, else its first characters and an ellipsis.
pub open spec fn shown_label(full: Seq<char>) -> Seq<char> {
    if full.len() > MAX_LABEL_CHARS {
        full.subrange(0, MAX_LABEL_CHARS as int) + "\u{2026}"@
    } else {
        full
    }
}

/// The line that lists, sorted, the playlists `names`.
pub open spec fn playlists_view(names: Seq<Seq<char>>) -> NodeView {
    NodeView::Actionable {
        label: "In playlists"@,
        children: Some(sorted_of(names).map_values(|n: Seq<char>| NodeView::Plain(n))),
        command: None,
        refresh: false,
    }
}

/// The menu while `track` plays.
pub open spec fn playing_model(track: Track, index: PlaylistIndex) -> Seq<NodeView> {
    let full = track_label(track);
    let names = index.names_of(track.file@);
    seq![NodeView::Plain(shown_label(full)), NodeView::Separator] + (if full.len()
        > MAX_LABEL_CHARS {
        seq![NodeView::Plain(full)]
    } else {
        Seq::empty()
    }) + (if names.len() > 0 {
        seq![playlists_view(names)]
    } else {
        Seq::empty()
    }) + seq![
        NodeView::Separator,
        action_view("pause/play"@, "toggle"@),
        action_view("clear"@, "clear"@),
        action_view("next"@, "next"@),
    ]
}

/// The whole menu for what the daemon reported.
pub open spec fn menu_model(
    outcome: ConnectionOutcome,
    track: Option<Track>,
    index: PlaylistIndex,
) -> Seq<NodeView> {
    match outcome {
        ConnectionOutcome::Failed(e) => seq![
            NodeView::Plain("\u{1f507}"@),
            NodeView::Separator,
            NodeView::Plain(e@),
        ],
        ConnectionOutcome::Connected => match track {
            None => seq![
                NodeView::Plain("\u{266b}"@),
                NodeView::Separator,
                action_view("pause/play"@, "toggle"@),
                action_view("clear"@, "clear"@),
            ],
            Some(t) => playing_model(t, index),
        },
    }
}

/// An action line labelled `text` that runs the control program with
/// `command` and then refreshes the menu.
pub fn mpc_command(text: &str, command: &str) -> (r: MenuNode)
    ensures
        r.view() == action_view(text@, command@),
{
    MenuNode::Actionable {
        label: String::from_str(text),
        children: None,
        command: Some(
            Command { program: String::from_str("/opt/homebrew/bin/mpc"), arg: String::from_str(command) },
        ),
        refresh: true,
    }
}

/// The text of `o`, or `fallback` where there is none.
fn text_or(o: &Option<String>, fallback: &str) -> (r: String)
    ensures
        r@ == or_text(*o, fallback@),
{
    match o {
        Some(s) => s.clone(),
        None => String::from_str(fallback),
    }
}

/// The label of `track`: `"{title} - {artist}"`.
pub fn track_label_text(track: &Track) -> (r: String)
    ensures
        r@ == track_label(*track),
{
    let mut r = text_or(&track.title, "(no title)");
    r.append(" - ");
    let artist = text_or(&track.artist, "(no artist)");
    r.append(artist.as_str());
    r
}

/// `full` cut to `MAX_LABEL_CHARS` characters and an ellipsis, where it is
/// longer than that.
pub fn shorten_label(full: &String) -> (r: String)
    ensures
        r@ == shown_label(full@),
{
    if full.as_str().unicode_len() > MAX_LABEL_CHARS {
        let mut r = String::from_str(full.as_str().substring_char(0, MAX_LABEL_CHARS));
        r.append("\u{2026}");
        r
    } else {
        full.clone()
    }
}

/// The line that lists the playlists `names`, in order.
fn playlists_node(names: &Vec<String>) -> (r: MenuNode)
    ensures
        r.view() == (NodeView::Actionable {
            label: "In playlists"@,
            children: Some(views(names@).map_values(|n: Seq<char>| NodeView::Plain(n))),
            command: None,
            refresh: false,
        }),
{
    let mut children: Vec<MenuNode> = Vec::new();
    let mut i: usize = 0;
    while i < names.len()
        invariant
            i <= names@.len(),
            children@.len() == i,
            forall|j: int|
                0 <= j < i ==> (#[trigger] children@[j]).view() == NodeView::Plain(names@[j]@),
        decreases names@.len() - i,
    {
        children.push(MenuNode::Plain(names[i].clone()));
        i = i + 1;
    }
    let r = MenuNode::Actionable {
        label: String::from_str("In playlists"),
        children: Some(children),
        command: None,
        refresh: false,
    };
    assert(r.view()->Actionable_children->Some_0 =~= views(names@).map_values(
        |n: Seq<char>| NodeView::Plain(n),
    ));
    r
}

/// The menu while `track` plays.
fn playing_menu(track: &Track, index: &PlaylistIndex) -> (r: Vec<MenuNode>)
    requires
        index.wf(),
    ensures
        nodes_view(r@) == playing_model(*track, *index),
{
    let full = track_label_text(track);
    let mut r: Vec<MenuNode> = Vec::new();
    r.push(MenuNode::Plain(shorten_label(&full)));
    r.push(MenuNode::Separator);
    let ghost head = nodes_view(r@);
    assert(head =~= seq![NodeView::Plain(shown_label(full@)), NodeView::Separator]);
    if full.as_str().unicode_len() > MAX_LABEL_CHARS {
        r.push(MenuNode::Plain(full));
    }
    let ghost upto_full = nodes_view(r@);
    assert(upto_full =~= head + (if full@.len() > MAX_LABEL_CHARS {
        seq![NodeView::Plain(full@)]
    } else {
        Seq::<NodeView>::empty()
    }));
    let mut names = index.names_for(&track.file);
    let ghost found = views(names@);
    sort_strings(&mut names);
    proof {
        lemma_sorted_of(views(names@), found);
    }
    if names.len() > 0 {
        let node = playlists_node(&names);
        assert(node.view() == playlists_view(found));
        r.push(node);
    }
    let ghost upto_lists = nodes_view(r@);
    assert(upto_lists =~= upto_full + (if found.len() > 0 {
        seq![playlists_view(found)]
    } else {
        Seq::<NodeView>::empty()
    }));
    r.push(MenuNode::Separator);
    r.push(mpc_command("pause/play", "toggle"));
    r.push(mpc_command("clear", "clear"));
    r.push(mpc_command("next", "next"));
    assert(nodes_view(r@) =~= playing_model(*track, *index));
    r
}

/// Compiles the menu for what the daemon reported: why it could not be
/// reached; or, when nothing plays, the idle menu; or the playing track with
/// the playlists that list it and the player's actions.
pub fn compile_menu(
    outcome: &ConnectionOutcome,
    track: &Option<Track>,
    index: &PlaylistIndex,
) -> (r: Vec<MenuNode>)
    requires
        index.wf(),
    ensures
        nodes_view(r@) == menu_model(*outcome, *track, *index),
{
    match outcome {
        ConnectionOutcome::Failed(e) => {
            let mut r: Vec<MenuNode> = Vec::new();
            r.push(MenuNode::Plain(String::from_str("\u{1f507}")));
            r.push(MenuNode::Separator);
            r.push(MenuNode::Plain(e.clone()));
            assert(nodes_view(r@) =~= menu_model(*outcome, *track, *index));
            r
        },
        ConnectionOutcome::Connected => match track {
            None => {
                let mut r: Vec<MenuNode> = Vec::new();
                r.push(MenuNode::Plain(String::from_str("\u{266b}")));
                r.push(MenuNode::Separator);
                r.push(mpc_command("pause/play", "toggle"));
                r.push(mpc_command("clear", "clear"));
                assert(nodes_view(r@) =~= menu_model(*outcome, *track, *index));
                r
            },
            Some(t) => playing_menu(t, index),
        },
    }
}

/// A track label of at most `MAX_LABEL_CHARS` characters is shown whole as
/// the first line, and no line after the separator repeats it.
pub proof fn lemma_short_label_whole(track: Track, index: PlaylistIndex)
    requires
        track_label(track).len() <= MAX_LABEL_CHARS,
    ensures
        menu_model(ConnectionOutcome::Connected, Some(track), index)[0] == NodeView::Plain(
            track_label(track),
        ),
        menu_model(ConnectionOutcome::Connected, Some(track), index)[1] == NodeView::Separator,
        !(menu_model(ConnectionOutcome::Connected, Some(track), index)[2] is Plain),
{
    let names = index.names_of(track.file@);
    let m = menu_model(ConnectionOutcome::Connected, Some(track), index);
    if names.len() > 0 {
        assert(m[2] == playlists_view(names));
    } else {
        assert(m[2] == NodeView::Separator);
    }
}

/// A track label longer than `MAX_LABEL_CHARS` characters is shown as its
/// first `MAX_LABEL_CHARS` characters and an ellipsis, and the line after the
/// separator holds it whole.
pub proof fn lemma_long_label_cut(track: Track, index: PlaylistIndex)
    requires
        track_label(track).len() > MAX_LABEL_CHARS,
    ensures
        menu_model(ConnectionOutcome::Connected, Some(track), index)[0] == NodeView::Plain(
            track_label(track).subrange(0, MAX_LABEL_CHARS as int) + "\u{2026}"@,
        ),
        menu_model(ConnectionOutcome::Connected, Some(track), index)[1] == NodeView::Separator,
        menu_model(ConnectionOutcome::Connected, Some(track), index)[2] == NodeView::Plain(
            track_label(track),
        ),
{
}

/// Compiling the same report twice gives the same menu.
pub proof fn lemma_compile_deterministic(
    outcome: ConnectionOutcome,
    track: Option<Track>,
    index: PlaylistIndex,
    first: Seq<MenuNode>,
    second: Seq<MenuNode>,
)
    requires
        nodes_view(first) == menu_model(outcome, track, index),
        nodes_view(second) == menu_model(outcome, track, index),
    ensures
        nodes_view(first) == nodes_view(second),
{
}

} // verus!
