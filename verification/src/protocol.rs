//! The messages exchanged with clients.
//!
//! Clients send `Login` once and `Input` afterwards; the server sends
//! `Welcome` once, immediately after the connection, and then an
//! `Update` snapshot every tick.  The binary layout of these messages is
//! defined by the codec.

use vstd::prelude::*;

verus! {

use crate::vec2::{Vec2, Vec2s};
use crate::state::{PlayerId, GameState, GameV};

/// A button a client can hold or release.
#[derive(Clone, Copy, Debug, PartialEq, Eq, Hash, Structural)]
pub enum Button {
    Forward,
    Left,
    Back,
    Right,
    Fire,
}

/// One input notification from a client.
#[derive(Clone, Copy, Debug, PartialEq, Eq, Structural)]
pub enum Input {
    /// A button went down; carries the aim direction at that moment.
    Press(Button, Vec2),
    /// A button went up.
    Release(Button),
    /// The aim direction changed.
    DirChanged(Vec2),
}

/// Mathematical model of an `Input`.
pub enum InputV {
    Press(Button, Vec2s),
    Release(Button),
    DirChanged(Vec2s),
}

impl View for Input {
    type V = InputV;

    open spec fn view(&self) -> InputV {
        match self {
            Input::Press(b, d) => InputV::Press(*b, d@),
            Input::Release(b) => InputV::Release(*b),
            Input::DirChanged(d) => InputV::DirChanged(d@),
        }
    }
}

/// A message a client sends to the server.
#[derive(Clone, Debug, PartialEq)]
pub enum ToServerMsg {
    /// The first message: echoes the id the server assigned, and names
    /// the player.
    Login(PlayerId, String),
    /// Every later message: an input, tagged with the sender's id.
    Input(PlayerId, Input),
}

/// Mathematical model of a `ToServerMsg`.
pub enum ToServerMsgV {
    Login(int, Seq<char>),
    Input(int, InputV),
}

impl View for ToServerMsg {
    type V = ToServerMsgV;

    open spec fn view(&self) -> ToServerMsgV {
        match self {
            ToServerMsg::Login(id, name) => ToServerMsgV::Login(id@, name@),
            ToServerMsg::Input(id, input) => ToServerMsgV::Input(id@, input@),
        }
    }
}

/// A message the server sends to a client.
#[derive(Clone, Debug, PartialEq)]
pub enum FromServerMsg {
    /// Sent once, before anything else: the client's assigned id.
    Welcome(PlayerId),
    /// The full state snapshot of one tick.
    Update(GameState),
}

/// Mathematical model of a `FromServerMsg`.
pub enum FromServerMsgV {
    Welcome(int),
    Update(GameV),
}

impl View for FromServerMsg {
    type V = FromServerMsgV;

    open spec fn view(&self) -> FromServerMsgV {
        match self {
            FromServerMsg::Welcome(id) => FromServerMsgV::Welcome(id@),
            FromServerMsg::Update(gs) => FromServerMsgV::Update(gs@),
        }
    }
}

} // verus!
