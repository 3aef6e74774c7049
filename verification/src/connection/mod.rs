//! What a connection does with what it reads: the decisions of the loop that
//! serves a socket. The loop itself, which reads and writes, is not here.

use crate::request::request_builder::{feed, is_complete, BuilderView, Progress, RequestBuilder};
use crate::status::StatusCode;
use vstd::prelude::*;

verus! {

/// The number of bytes that are read from the socket at once.
pub const FRAME_SIZE: usize = 1024;

/// What a read on the socket has brought.
#[derive(Debug)]
pub enum Event {
    /// A frame, and the number of its bytes that were read.
    Read(Vec<u8>, usize),
    /// The peer has closed the connection.
    EndOfStream,
    /// Nothing is there to read yet.
    WouldBlock,
    /// The read has failed.
    Failed,
}

/// What the connection does next.
#[derive(Debug)]
pub enum Action {
    /// Read again: the request is not complete.
    Read,
    /// Hand the request, which is complete, to the application.
    Dispatch,
    /// Answer with the status code and close: what was read is no request.
    Refuse(StatusCode),
    /// Close without an answer.
    Close,
}

/// An [`Action`] as a mathematical value.
pub enum ActionView {
    Read,
    Dispatch,
    Refuse(u16),
    Close,
}

impl View for Action {
    type V = ActionView;

    open spec fn view(&self) -> ActionView {
        match self {
            Action::Read => ActionView::Read,
            Action::Dispatch => ActionView::Dispatch,
            Action::Refuse(code) => ActionView::Refuse(code@),
            Action::Close => ActionView::Close,
        }
    }
}

/// True for a frame that the builder can take: it holds the bytes that were
/// read, and with them the builder stays within the machine's word.
pub open spec fn acceptable(held: nat, frame: Seq<u8>, length: usize) -> bool {
    length <= frame.len() && held + length <= usize::MAX
}

/// The builder after an event: bytes that were read are fed to it, and
/// nothing else changes it.
pub open spec fn builder_after(v: BuilderView, held: nat, event: Event) -> BuilderView {
    match event {
        Event::Read(frame, length) => if acceptable(held, frame@, length) {
            feed(v, frame@.take(length as int))
        } else {
            v
        },
        _ => v,
    }
}

/// The action that follows an event. Bytes that complete the request lead to
/// its dispatch, bytes that are no request to the answer 400, other bytes to
/// the next read. A frame that cannot be taken leads to the answer 500. The
/// end of the stream and a failed read close the connection.
pub open spec fn action_after(v: BuilderView, held: nat, event: Event) -> ActionView {
    match event {
        Event::Read(frame, length) => if !acceptable(held, frame@, length) {
            ActionView::Refuse(500)
        } else if builder_after(v, held, event).error is Some {
            ActionView::Refuse(400)
        } else if is_complete(builder_after(v, held, event)) {
            ActionView::Dispatch
        } else {
            ActionView::Read
        },
        Event::EndOfStream => ActionView::Close,
        Event::WouldBlock => ActionView::Read,
        Event::Failed => ActionView::Close,
    }
}

/// Takes an event of the socket, feeds what was read to the builder of the
/// request, and says what the connection does next.
pub fn next_action(builder: &mut RequestBuilder, event: Event) -> (action: Action)
    requires
        old(builder).wf(),
    ensures
        final(builder).wf(),
        final(builder)@ == builder_after(old(builder)@, old(builder).buffered(), event),
        action@ == action_after(old(builder)@, old(builder).buffered(), event),
        action matches Action::Refuse(code) ==> code.wf(),
{
    match event {
        Event::Read(frame, length) => {
            let held = builder.buffered_len();
            if length > frame.len() || length > usize::MAX - held {
                return Action::Refuse(StatusCode::internal_server_error());
            }
            match builder.parse(frame, length) {
                Ok(Progress::Complete) => Action::Dispatch,
                Ok(Progress::NeedMore) => Action::Read,
                Err(_) => Action::Refuse(StatusCode::bad_request()),
            }
        },
        Event::EndOfStream => Action::Close,
        Event::WouldBlock => Action::Read,
        Event::Failed => Action::Close,
    }
}

} // verus!
