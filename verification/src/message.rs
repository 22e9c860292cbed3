//! User-facing messages collected while serving a page.

use vstd::prelude::*;

verus! {

/// How a message should be presented.
#[derive(Clone, Copy, PartialEq, Eq, Structural, Debug)]
pub enum MessageKind {
    Error,
    Success,
}

/// One message for the user.
#[derive(Debug)]
pub struct Message {
    kind: MessageKind,
    value: String,
}

impl Message {
    /// The kind this message was built with.
    pub closed spec fn spec_kind(&self) -> MessageKind {
        self.kind
    }

    /// The text this message was built with.
    pub closed spec fn spec_value(&self) -> Seq<char> {
        self.value@
    }

    pub fn kind(&self) -> (r: MessageKind)
        ensures
            r == self.spec_kind(),
    {
        self.kind
    }

    pub fn value(&self) -> (r: &str)
        ensures
            r@ == self.spec_value(),
    {
        self.value.as_str()
    }

    pub fn from_string(text: String, kind: MessageKind) -> (r: Self)
        ensures
            r.spec_kind() == kind,
            r.spec_value() == text@,
    {
        Self { kind, value: text }
    }
}

/// The messages gathered for one response, in order.
#[derive(Debug)]
pub struct Messages(Vec<Message>);

impl Messages {
    /// The gathered messages, oldest first.
    pub closed spec fn spec_messages(&self) -> Seq<Message> {
        self.0@
    }

    /// A single-message collection.
    pub fn create_with_message(text: String, kind: MessageKind) -> (r: Self)
        ensures
            r.spec_messages().len() == 1,
            r.spec_messages()[0].spec_kind() == kind,
            r.spec_messages()[0].spec_value() == text@,
    {
        Self(vec![Message::from_string(text, kind)])
    }

    /// An empty collection.
    pub fn new() -> (r: Self)
        ensures
            r.spec_messages().len() == 0,
    {
        Self(Vec::new())
    }
}

impl Default for Messages {
    fn default() -> (r: Self)
        ensures
            r.spec_messages().len() == 0,
    {
        Messages(Vec::new())
    }
}

impl Messages {

    pub fn messages(&self) -> (r: &Vec<Message>)
        ensures
            r@ == self.spec_messages(),
    {
        &self.0
    }

    pub fn is_empty(&self) -> (r: bool)
        ensures
            r == (self.spec_messages().len() == 0),
    {
        self.0.len() == 0
    }

    /// Whether any gathered message is an error.
    pub fn have_error(&self) -> (r: bool)
        ensures
            r == exists|i: int|
                0 <= i < self.spec_messages().len() && self.spec_messages()[i].spec_kind()
                    is Error,
    {
        let mut have_error = false;
        let mut i: usize = 0;
        while i < self.0.len()
            invariant
                0 <= i <= self.0@.len(),
                have_error == exists|j: int|
                    0 <= j < i && self.0@[j].spec_kind() is Error,
            decreases self.0@.len() - i,
        {
            let is_error = matches!(self.0[i].kind(), MessageKind::Error);
            proof {
                if is_error {
                    assert(self.0@[i as int].spec_kind() is Error);
                }
            }
            have_error = have_error || is_error;
            i += 1;
        }
        have_error
    }

    pub fn add_message(&mut self, message: Message)
        ensures
            final(self).spec_messages() == old(self).spec_messages().push(message),
    {
        self.0.push(message);
    }

    pub fn add_message_from_string(&mut self, text: String, kind: MessageKind)
        ensures
            final(self).spec_messages().len() == old(self).spec_messages().len() + 1,
            final(self).spec_messages().take(old(self).spec_messages().len() as int) == old(
                self,
            ).spec_messages(),
            final(self).spec_messages().last().spec_kind() == kind,
            final(self).spec_messages().last().spec_value() == text@,
    {
        self.add_message(Message::from_string(text, kind));
        proof {
            assert(self.spec_messages().take(old(self).spec_messages().len() as int) =~= old(
                self,
            ).spec_messages());
        }
    }
}

} // verus!
