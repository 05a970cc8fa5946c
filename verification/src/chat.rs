//! Conversation data carried through a completion request.
use vstd::prelude::*;

verus! {

/// One turn of a conversation: a role and its text.
pub struct ChatMessage {
    pub role: String,
    pub content: String,
}

/// The abstract value of a message.
#[verifier::ext_equal]
pub struct MessageView {
    pub role: Seq<char>,
    pub content: Seq<char>,
}

impl View for ChatMessage {
    type V = MessageView;

    open spec fn view(&self) -> MessageView {
        MessageView { role: self.role@, content: self.content@ }
    }
}

impl Clone for ChatMessage {
    fn clone(&self) -> (r: Self)
        ensures
            r@ == self@,
    {
        ChatMessage { role: self.role.clone(), content: self.content.clone() }
    }
}

/// Builds a message from its parts.
pub fn chat_message(role: &str, content: &str) -> (r: ChatMessage)
    ensures
        r@.role == role@,
        r@.content == content@,
{
    ChatMessage { role: String::from_str(role), content: String::from_str(content) }
}

/// Two message sequences hold the same conversations, value for value.
pub open spec fn same_messages(a: Seq<ChatMessage>, b: Seq<ChatMessage>) -> bool {
    a.len() == b.len() && forall|k: int| 0 <= k < a.len() ==> a[k]@ == #[trigger] b[k]@
}

/// A copy of the given messages, value for value.
pub fn clone_messages(v: &Vec<ChatMessage>) -> (r: Vec<ChatMessage>)
    ensures
        same_messages(r@, v@),
{
    let mut out: Vec<ChatMessage> = Vec::new();
    let mut i: usize = 0;
    while i < v.len()
        invariant
            i <= v@.len(),
            out@.len() == i,
            forall|k: int| 0 <= k < i ==> out@[k]@ == #[trigger] v@[k]@,
        decreases v@.len() - i,
    {
        out.push(v[i].clone());
        i = i + 1;
    }
    out
}

/// An editor selection handed along with an assistance request.
pub struct SelectionInfo {
    pub file_path: String,
    pub start_line: u32,
    pub end_line: u32,
    pub selected_text: String,
}

}
