// The routing core of an audio patchbay: connections from a channel of a
// capturing device to a channel of a playing device, the buffer between the
// two streams of a connection, and the patchbay that owns the connections.
//
// The core decides and keeps the books; it does not talk to the audio
// backend. Whoever drives it asks the backend for what the core decided
// and hands back what the backend said.

use vstd::prelude::*;

pub mod cli;
pub mod connection;
pub mod error;
pub mod helpers;
pub mod identity;
pub mod patchbay;
pub mod stream;
pub mod system;
pub mod text;
pub mod transfer;

verus! {

/// A command for the patchbay, as entered by the operator.
#[derive(Debug, PartialEq)]
pub enum Action {
    List,
    Host(String),
    Connect(String, u16, String, u16),
    Disconnect(String),
    Print,
    Start,
    Stop,
    Save(String),
    Load(String),
    Quit,
}

/// The mathematical content of an `Action`.
pub enum ActionView {
    List,
    Host(Seq<char>),
    Connect(Seq<char>, u16, Seq<char>, u16),
    Disconnect(Seq<char>),
    Print,
    Start,
    Stop,
    Save(Seq<char>),
    Load(Seq<char>),
    Quit,
}

impl View for Action {
    type V = ActionView;

    open spec fn view(&self) -> ActionView {
        match self {
            Action::List => ActionView::List,
            Action::Host(name) => ActionView::Host(name@),
            Action::Connect(source, source_channel, sink, sink_channel) => ActionView::Connect(
                source@,
                *source_channel,
                sink@,
                *sink_channel,
            ),
            Action::Disconnect(id) => ActionView::Disconnect(id@),
            Action::Print => ActionView::Print,
            Action::Start => ActionView::Start,
            Action::Stop => ActionView::Stop,
            Action::Save(path) => ActionView::Save(path@),
            Action::Load(path) => ActionView::Load(path@),
            Action::Quit => ActionView::Quit,
        }
    }
}

} // verus!
