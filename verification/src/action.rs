//! The steps that the library decides on and its caller takes.
//!
//! The library never touches a descriptor or a stream. It answers every event
//! and every command with a list of steps. The caller takes them in order, and
//! takes each of them even if an earlier one failed.
use vstd::prelude::*;

verus! {

/// One step that the caller takes for the library.
#[derive(Clone, Debug, PartialEq, Eq)]
pub enum Action {
    /// Close this descriptor.
    Close(i32),
    /// Write these bytes to the output and flush it.
    Emit(Vec<u8>),
    /// Write these bytes to the notification handle.
    Respond(Vec<u8>),
}

/// What an [`Action`] says, with the bytes it carries.
pub enum ActionView {
    Close(i32),
    Emit(Seq<u8>),
    Respond(Seq<u8>),
}

impl View for Action {
    type V = ActionView;

    open spec fn view(&self) -> ActionView {
        match self {
            Action::Close(fd) => ActionView::Close(*fd),
            Action::Emit(line) => ActionView::Emit(line@),
            Action::Respond(record) => ActionView::Respond(record@),
        }
    }
}

/// What `actions` say, in order.
pub open spec fn spec_actions(actions: Seq<Action>) -> Seq<ActionView> {
    actions.map_values(|action: Action| action@)
}

} // verus!
