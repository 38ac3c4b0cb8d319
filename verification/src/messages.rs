//! The protocol messages the core consumes and produces, and the input
//! events handed in from the terminal.

use vstd::prelude::*;

use crate::dataset::DatasetData;
use crate::page::{ElementUpdate, Page};

verus! {

/// An interaction payload sent back to the host.
pub enum UiInput {
    Text(String),
    Click,
}

/// The UI protocol messages. The core consumes `Pages`, `Page`,
/// `UpdateElementsFor` and `Dataset`, and produces `Subscribe` and
/// `InputFor`; every other inbound variant is accepted and ignored.
pub enum UiMessage {
    Subscribe,
    Pages(Vec<Page>),
    GetPage(String),
    Page(Page),
    UpdateElementsFor(String, Vec<ElementUpdate>),
    Dataset(String, Vec<DatasetData>),
    InputFor(String, String, Vec<usize>, UiInput),
    SetPage(String),
    ClearPage,
    UpdateElements(Vec<ElementUpdate>),
    Input(String, Vec<usize>, UiInput),
}

/// The key codes the core reacts to; everything else is `Other`.
pub enum KeyCode {
    Backspace,
    Enter,
    Left,
    Right,
    Up,
    Down,
    Char(char),
    Esc,
    Other,
}

/// Whether a key event is a press, a repeat, or a release.
pub enum KeyEventKind {
    Press,
    Repeat,
    Release,
}

/// A terminal input event: key presses and pastes drive the model;
/// mouse, resize and focus-change events are accepted and ignored.
pub enum InputEvent {
    Key(KeyCode, KeyEventKind),
    Paste(String),
    FocusGained,
    FocusLost,
    Mouse,
    Resize(u16, u16),
}

/// What the model processor consumes: terminal events and the store
/// operations decoded from inbound protocol messages.
pub enum ModelUpdate {
    Event(InputEvent),
    SetPages(Vec<Page>),
    SetPage(Page),
    UpdateElementsFor(String, Vec<ElementUpdate>),
    UpdateDataset(String, Vec<DatasetData>),
}

/// Routes an inbound protocol message to the matching store operation;
/// variants the core does not consume yield nothing.
pub fn message_to_update(msg: UiMessage) -> (r: Option<ModelUpdate>)
    ensures
        match msg {
            UiMessage::Pages(list) => r == Some(ModelUpdate::SetPages(list)),
            UiMessage::Page(page) => r == Some(ModelUpdate::SetPage(page)),
            UiMessage::UpdateElementsFor(id, updates) => r == Some(
                ModelUpdate::UpdateElementsFor(id, updates),
            ),
            UiMessage::Dataset(path, rows) => r == Some(ModelUpdate::UpdateDataset(path, rows)),
            _ => r is None,
        },
{
    match msg {
        UiMessage::Subscribe => None,
        UiMessage::Pages(list) => Some(ModelUpdate::SetPages(list)),
        UiMessage::GetPage(_) => None,
        UiMessage::Page(page) => Some(ModelUpdate::SetPage(page)),
        UiMessage::UpdateElementsFor(id, updates) => Some(
            ModelUpdate::UpdateElementsFor(id, updates),
        ),
        UiMessage::Dataset(path, rows) => Some(ModelUpdate::UpdateDataset(path, rows)),
        UiMessage::InputFor(_, _, _, _) => None,
        UiMessage::SetPage(_) => None,
        UiMessage::ClearPage => None,
        UiMessage::UpdateElements(_) => None,
        UiMessage::Input(_, _, _) => None,
    }
}

} // verus!
