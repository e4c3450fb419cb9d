//! The chat log kept for each peer.

use vstd::prelude::*;

use crate::ids::{is_uuid_v4_text, new_id};

verus! {

/// What a chat message carries.
#[derive(Debug)]
pub enum Content {
    Text { text: String },
    File { file_id: String, filename: String, progress: String },
}

pub ghost enum ContentView {
    Text { text: Seq<char> },
    File { file_id: Seq<char>, filename: Seq<char>, progress: Seq<char> },
}

impl View for Content {
    type V = ContentView;

    open spec fn view(&self) -> ContentView {
        match self {
            Content::Text { text } => ContentView::Text { text: text@ },
            Content::File { file_id, filename, progress } => ContentView::File {
                file_id: file_id@,
                filename: filename@,
                progress: progress@,
            },
        }
    }
}

impl Clone for Content {
    fn clone(&self) -> (r: Self)
        ensures
            r@ == self@,
    {
        match self {
            Content::Text { text } => Content::Text { text: text.clone() },
            Content::File { file_id, filename, progress } => Content::File {
                file_id: file_id.clone(),
                filename: filename.clone(),
                progress: progress.clone(),
            },
        }
    }
}

/// One entry of a chat log.
#[derive(Debug)]
pub struct Message {
    pub id: String,
    /// The id of the peer that sent it.
    pub sender: String,
    pub content: Content,
}

pub ghost struct MessageView {
    pub id: Seq<char>,
    pub sender: Seq<char>,
    pub content: ContentView,
}

impl View for Message {
    type V = MessageView;

    open spec fn view(&self) -> MessageView {
        MessageView { id: self.id@, sender: self.sender@, content: self.content@ }
    }
}

impl Clone for Message {
    fn clone(&self) -> (r: Self)
        ensures
            r@ == self@,
    {
        Message { id: self.id.clone(), sender: self.sender.clone(), content: self.content.clone() }
    }
}

/// The progress label of a file message that was just recorded.
pub open spec fn just_created() -> Seq<char> {
    seq!['J', 'u', 's', 't', ' ', 'c', 'r', 'e', 'a', 't', 'e', 'd', '.']
}

impl Message {
    /// A text message from `sender`, under a fresh id.
    pub fn new_text(sender: &str, text: String) -> (r: Message)
        ensures
            r@.sender == sender@,
            r@.content == (ContentView::Text { text: text@ }),
            is_uuid_v4_text(r@.id),
    {
        Message { id: new_id(), sender: sender.to_owned(), content: Content::Text { text } }
    }

    /// A file message from `sender`, under a fresh id.
    pub fn new_file(sender: &str, file_id: String, filename: String, progress: String) -> (r:
        Message)
        ensures
            r@.sender == sender@,
            r@.content == (ContentView::File {
                file_id: file_id@,
                filename: filename@,
                progress: progress@,
            }),
            is_uuid_v4_text(r@.id),
    {
        Message {
            id: new_id(),
            sender: sender.to_owned(),
            content: Content::File { file_id, filename, progress },
        }
    }
}

/// The messages exchanged with one peer, oldest first.
#[derive(Debug)]
pub struct Chat {
    pub messages: Vec<Message>,
}

impl View for Chat {
    type V = Seq<MessageView>;

    open spec fn view(&self) -> Seq<MessageView> {
        self.messages@.map_values(|m: Message| m@)
    }
}

impl Chat {
    /// An empty chat.
    pub fn new() -> (r: Chat)
        ensures
            r@ == Seq::<MessageView>::empty(),
    {
        let r = Chat { messages: Vec::new() };
        proof {
            assert(r@ =~= Seq::<MessageView>::empty());
        }
        r
    }

    /// Appends a message.
    pub fn push(&mut self, m: Message)
        ensures
            final(self)@ == old(self)@.push(m@),
    {
        self.messages.push(m);
        proof {
            assert(self@ =~= old(self)@.push(m@));
        }
    }
}

impl Default for Chat {
    fn default() -> (r: Chat)
        ensures
            r@ == Seq::<MessageView>::empty(),
    {
        Chat::new()
    }
}

impl Clone for Chat {
    fn clone(&self) -> (r: Self)
        ensures
            r@ == self@,
    {
        let mut messages: Vec<Message> = Vec::new();
        let mut i: usize = 0;
        while i < self.messages.len()
            invariant
                i <= self.messages@.len(),
                messages@.len() == i,
                forall|k: int| 0 <= k < i ==> #[trigger] messages@[k]@ == self.messages@[k]@,
            decreases self.messages@.len() - i,
        {
            messages.push(self.messages[i].clone());
            i += 1;
        }
        let r = Chat { messages };
        proof {
            assert(r@ =~= self@);
        }
        r
    }
}

} // verus!
