//! The values that the index and the menu compiler work on, and their
//! mathematical models.
use vstd::prelude::*;

verus! {

broadcast use vstd::std_specs::vec::axiom_vec_index_decreases;

/// A track of the daemon's library, identified by its file path.
#[derive(Clone, Debug, PartialEq, Eq)]
pub struct Track {
    pub file: String,
    pub title: Option<String>,
    pub artist: Option<String>,
}

/// A stored playlist: its name and the files it lists, in order.
#[derive(Clone, Debug, PartialEq, Eq)]
pub struct Playlist {
    pub name: String,
    pub files: Vec<String>,
}

/// The result of trying to reach the daemon.
#[derive(Clone, Debug, PartialEq, Eq)]
pub enum ConnectionOutcome {
    Connected,
    Failed(String),
}

/// An external program to run with one argument.
#[derive(Clone, Debug, PartialEq, Eq)]
pub struct Command {
    pub program: String,
    pub arg: String,
}

/// One line of the menu.
#[derive(Debug, PartialEq, Eq)]
pub enum MenuNode {
    Plain(String),
    Separator,
    Actionable {
        label: String,
        children: Option<Vec<MenuNode>>,
        command: Option<Command>,
        refresh: bool,
    },
}

/// The model of a `Command`.
pub struct CommandView {
    pub program: Seq<char>,
    pub arg: Seq<char>,
}

/// The model of a `MenuNode`.
pub enum NodeView {
    Plain(Seq<char>),
    Separator,
    Actionable {
        label: Seq<char>,
        children: Option<Seq<NodeView>>,
        command: Option<CommandView>,
        refresh: bool,
    },
}

impl Command {
    pub open spec fn view(&self) -> CommandView {
        CommandView { program: self.program@, arg: self.arg@ }
    }
}

impl MenuNode {
    pub open spec fn view(&self) -> NodeView
        decreases self,
    {
        match self {
            MenuNode::Plain(t) => NodeView::Plain(t@),
            MenuNode::Separator => NodeView::Separator,
            MenuNode::Actionable { label, children, command, refresh } => NodeView::Actionable {
                label: label@,
                children: match children {
                    Some(v) => Some(
                        Seq::new(
                            v.len() as nat,
                            |i: int|
                                if 0 <= i < v.len() {
                                    v[i].view()
                                } else {
                                    NodeView::Separator
                                },
                        ),
                    ),
                    None => None,
                },
                command: match command {
                    Some(c) => Some(c.view()),
                    None => None,
                },
                refresh: *refresh,
            },
        }
    }
}

} // verus!
