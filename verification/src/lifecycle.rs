//! Two state machines: a typestate document workflow and an enum-based
//! connection lifecycle.

use core::marker::PhantomData;
use vstd::prelude::*;

verus! {

/// Typestate marker: the document is editable.
pub struct Draft;

/// Typestate marker: the document awaits review.
pub struct PendingReview;

/// Typestate marker: the document has been approved.
pub struct Approved;

/// Typestate marker: the document has been rejected.
pub struct Rejected;

/// A document whose workflow state lives in the type: only a draft can
/// be edited, only a pending document can be approved or rejected, only
/// an approved one can be published, and only a rejected one can be
/// revised back into a draft.  Every transition keeps the content.
pub struct Document<State> {
    content: String,
    _state: PhantomData<State>,
}

impl<State> Document<State> {
    /// The document's text.
    pub closed spec fn spec_content(self) -> Seq<char> {
        self.content@
    }

    /// Read access to the document's text, in any state.
    pub fn content(&self) -> (s: &str)
        ensures
            s@ == self.spec_content(),
    {
        self.content.as_str()
    }
}

impl Document<Draft> {
    /// A new draft with the given content.
    pub fn new(content: &str) -> (d: Document<Draft>)
        ensures
            d.spec_content() == content@,
    {
        Document { content: content.to_owned(), _state: PhantomData }
    }

    /// Replaces the draft's content; only drafts can be edited.
    pub fn edit(&mut self, new_content: &str)
        ensures
            final(self).spec_content() == new_content@,
    {
        self.content = new_content.to_owned();
    }

    /// Hands the draft to review, keeping its content.
    pub fn submit_for_review(self) -> (d: Document<PendingReview>)
        ensures
            d.spec_content() == self.spec_content(),
    {
        Document { content: self.content, _state: PhantomData }
    }
}

impl Document<PendingReview> {
    /// Approves the document, keeping its content.
    pub fn approve(self) -> (d: Document<Approved>)
        ensures
            d.spec_content() == self.spec_content(),
    {
        Document { content: self.content, _state: PhantomData }
    }

    /// Rejects the document, keeping its content.  The reason is the
    /// caller's to record or report; the document does not retain it.
    pub fn reject(self, _reason: &str) -> (d: Document<Rejected>)
        ensures
            d.spec_content() == self.spec_content(),
    {
        Document { content: self.content, _state: PhantomData }
    }
}

impl Document<Approved> {
    /// The text to be published, exactly the document's content; sending
    /// it anywhere is the caller's business.
    pub fn publish(&self) -> (text: String)
        ensures
            text@ == self.spec_content(),
    {
        self.content.clone()
    }
}

impl Document<Rejected> {
    /// Returns the document to draft for another round of editing,
    /// keeping its content.
    pub fn revise(self) -> (d: Document<Draft>)
        ensures
            d.spec_content() == self.spec_content(),
    {
        Document { content: self.content, _state: PhantomData }
    }
}

/// Where a connection stands, with the data that only that state has.
#[derive(Debug, Clone)]
pub enum ConnectionState {
    Disconnected,
    Connecting { attempt: u32 },
    Connected { session_id: String },
    Failed { error: String },
}

/// An enum-based state machine: every transition is a total function of
/// the current state, and the contracts pin each one.
pub struct Connection {
    state: ConnectionState,
}

impl Connection {
    /// The current state.
    pub closed spec fn spec_state(self) -> ConnectionState {
        self.state
    }

    /// A fresh connection starts disconnected.
    pub fn new() -> (c: Connection)
        ensures
            c.spec_state() is Disconnected,
    {
        Connection { state: ConnectionState::Disconnected }
    }

    /// Starts or retries connecting: from disconnected or failed this is
    /// attempt one; while connecting, the attempt count goes up by one;
    /// an established connection is left alone.
    pub fn connect(&mut self)
        requires
            old(self).spec_state() matches ConnectionState::Connecting { attempt } ==> attempt
                < u32::MAX,
        ensures
            old(self).spec_state() is Disconnected || old(self).spec_state() is Failed ==> final(self).spec_state() == (ConnectionState::Connecting { attempt: 1u32 }),
            old(self).spec_state() matches ConnectionState::Connecting { attempt } ==> final(self).spec_state() == (ConnectionState::Connecting { attempt: (attempt + 1) as u32 }),
            old(self).spec_state() is Connected ==> final(self).spec_state() == old(self).spec_state(),
    {
        let next: Option<ConnectionState> = match &self.state {
            ConnectionState::Disconnected => Some(ConnectionState::Connecting { attempt: 1 }),
            ConnectionState::Failed { .. } => Some(ConnectionState::Connecting { attempt: 1 }),
            ConnectionState::Connecting { attempt } => Some(
                ConnectionState::Connecting { attempt: *attempt + 1 },
            ),
            ConnectionState::Connected { .. } => None,
        };
        if let Some(state) = next {
            self.state = state;
        }
    }

    /// A successful handshake while connecting establishes the session;
    /// in any other state the report is ignored.
    pub fn on_success(&mut self, session_id: &str)
        ensures
            old(self).spec_state() is Connecting ==> (final(self).spec_state()
                matches ConnectionState::Connected { session_id: s } && s@ == session_id@),
            !(old(self).spec_state() is Connecting) ==> final(self).spec_state() == old(self).spec_state(),
    {
        if let ConnectionState::Connecting { .. } = &self.state {
            self.state = ConnectionState::Connected { session_id: session_id.to_owned() };
        }
    }

    /// A failed handshake while connecting records the error; in any
    /// other state the report is ignored.
    pub fn on_failure(&mut self, error: &str)
        ensures
            old(self).spec_state() is Connecting ==> (final(self).spec_state()
                matches ConnectionState::Failed { error: e } && e@ == error@),
            !(old(self).spec_state() is Connecting) ==> final(self).spec_state() == old(self).spec_state(),
    {
        if let ConnectionState::Connecting { .. } = &self.state {
            self.state = ConnectionState::Failed { error: error.to_owned() };
        }
    }

    /// Disconnects from any state.
    pub fn disconnect(&mut self)
        ensures
            final(self).spec_state() is Disconnected,
    {
        self.state = ConnectionState::Disconnected;
    }

    /// Read access to the current state.
    pub fn state(&self) -> (s: &ConnectionState)
        ensures
            *s == self.spec_state(),
    {
        &self.state
    }
}

impl Default for Connection {
    /// Same as [`Connection::new`]: disconnected.
    fn default() -> (c: Connection)
        ensures
            c.spec_state() is Disconnected,
    {
        Connection::new()
    }
}

} // verus!
