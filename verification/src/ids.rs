//! Stable identities of agents, entries, requests and conversations.
use vstd::prelude::*;

verus! {

/// A stable identity, compared by its text.
#[derive(Clone, Debug, PartialEq, Eq, PartialOrd, Ord, Hash)]
pub struct Identity {
    text: String,
}

/// An agent's identity.
pub type AgentId = Identity;

/// A transcript item's identity.
pub type TranscriptItemId = Identity;

/// A tool activity's identity.
pub type ToolActivityId = Identity;

/// An artifact's identity.
pub type ArtifactId = Identity;

/// A mail's identity.
pub type MailId = Identity;

/// An attention request's identity.
pub type AttentionId = Identity;

/// A saved conversation's identity.
pub type ConversationId = Identity;

/// A tool call's identity.
pub type ToolCallId = Identity;

/// A turn's identity.
pub type TurnId = Identity;

/// A saved permission grant's identity.
pub type PermissionGrantId = Identity;

impl View for Identity {
    type V = Seq<char>;

    closed spec fn view(&self) -> Seq<char> {
        self.text@
    }
}

impl Identity {
    /// The identity written as `value`.
    pub fn new(value: &str) -> (id: Self)
        ensures
            id@ == value@,
    {
        Identity { text: value.to_owned() }
    }

    /// The identity's text.
    pub fn as_str(&self) -> (text: &str)
        ensures
            text@ == self@,
    {
        self.text.as_str()
    }

    /// The same identity, as a separate value.
    pub fn duplicate(&self) -> (copy: Self)
        ensures
            copy@ == self@,
    {
        Identity { text: self.text.clone() }
    }

    /// Whether two identities are the same.
    pub fn same(&self, other: &Self) -> (same: bool)
        ensures
            same == (self@ == other@),
    {
        self.text == other.text
    }
}

} // verus!
