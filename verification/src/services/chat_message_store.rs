use vstd::prelude::*;
use vstd::pervasive::VecAdditionalExecFns;
use vstd::string::StrSliceExecFns;
use vstd::string::StringExecFns;
use crate::error::ArchivistError;
use crate::services::chat_types::{
    ChatMessageContent, Attachment, ConversationType, ConversationSummary, DeliveryStatus,
    StoredMessage, StoredMessageModel, SummaryModel,
};
use crate::text::str_eq;

verus! {

// ── Text helpers ───────────────────────────────────────────────

/// The abbreviated display form of a peer id: its first six and last four
/// characters around "..", or the id itself when it is short.
pub open spec fn short_peer_id_spec(s: Seq<char>) -> Seq<char> {
    if s.len() > 12 {
        s.subrange(0, 6) + seq!['.', '.'] + s.subrange(s.len() - 4, s.len() as int)
    } else {
        s
    }
}

/// Abbreviate a peer id for display.
pub fn short_peer_id(peer_id: &str) -> (r: String)
    ensures
        r@ == short_peer_id_spec(peer_id@),
{
    let n = peer_id.unicode_len();
    if n > 12 {
        let head = peer_id.substring_char(0, 6);
        let tail = peer_id.substring_char(n - 4, n);
        let mut out = String::from_str(head);
        proof {
            reveal_strlit("..");
        }
        out.append("..");
        out.append(tail);
        proof {
            assert(out@ =~= short_peer_id_spec(peer_id@));
        }
        out
    } else {
        String::from_str(peer_id)
    }
}

/// Whether a character is unsafe in a file name.
pub open spec fn is_reserved_char(c: char) -> bool {
    c == '/' || c == '\\' || c == ':' || c == '*' || c == '?' || c == '"' || c == '<' || c == '>'
        || c == '|'
}

/// A file name with every reserved character replaced by an underscore.
pub open spec fn sanitize_filename_spec(s: Seq<char>) -> Seq<char> {
    s.map_values(|c: char| if is_reserved_char(c) { '_' } else { c })
}

/// Replace the characters a file system may reject by underscores.
pub fn sanitize_filename(name: &str) -> (r: String)
    ensures
        r@ == sanitize_filename_spec(name@),
{
    let n = name.unicode_len();
    let mut out = String::new();
    let mut i: usize = 0;
    while i < n
        invariant
            n == name@.len(),
            i <= n,
            out@ =~= sanitize_filename_spec(name@.subrange(0, i as int)),
        decreases n - i,
    {
        let c = name.get_char(i);
        if c == '/' || c == '\\' || c == ':' || c == '*' || c == '?' || c == '"' || c == '<' || c
            == '>' || c == '|' {
            proof {
                reveal_strlit("_");
            }
            out.append("_");
        } else {
            let piece = name.substring_char(i, i + 1);
            out.append(piece);
        }
        proof {
            assert(sanitize_filename_spec(name@.subrange(0, i + 1)) =~= sanitize_filename_spec(
                name@.subrange(0, i as int),
            ) + seq![if is_reserved_char(name@[i as int]) { '_' } else { name@[i as int] }]);
            assert(out@ =~= sanitize_filename_spec(name@.subrange(0, i + 1)));
        }
        i = i + 1;
    }
    proof {
        assert(name@.subrange(0, n as int) =~= name@);
    }
    out
}

// ── Clone helpers (field-wise, view-preserving) ────────────────

fn clone_opt_string(s: &Option<String>) -> (r: Option<String>)
    ensures
        r is Some <==> s is Some,
        r is Some ==> r->0@ == s->0@,
{
    match s {
        Some(x) => Some(x.clone()),
        None => None,
    }
}

fn clone_attachment(a: &Attachment) -> (r: Attachment)
    ensures
        r@ == a@,
{
    Attachment {
        cid: a.cid.clone(),
        filename: a.filename.clone(),
        mime_type: a.mime_type.clone(),
        size_bytes: a.size_bytes,
    }
}

pub fn clone_content(c: &ChatMessageContent) -> (r: ChatMessageContent)
    ensures
        r@ == c@,
{
    let mut attachments: Vec<Attachment> = Vec::new();
    let mut i: usize = 0;
    while i < c.attachments.len()
        invariant
            i <= c.attachments@.len(),
            attachments@.len() == i,
            forall|n: int| 0 <= n < i ==> (#[trigger] attachments@[n])@ == c.attachments@[n]@,
        decreases c.attachments@.len() - i,
    {
        attachments.push(clone_attachment(&c.attachments[i]));
        i = i + 1;
    }
    let r = ChatMessageContent {
        text: c.text.clone(),
        reply_to: clone_opt_string(&c.reply_to),
        attachments,
    };
    proof {
        assert(r@.attachments =~= c@.attachments);
        assert(r@ == c@);
    }
    r
}

pub fn clone_stored_message(m: &StoredMessage) -> (r: StoredMessage)
    ensures
        r@ == m@,
{
    StoredMessage {
        id: m.id.clone(),
        sender_peer_id: m.sender_peer_id.clone(),
        content: clone_content(&m.content),
        timestamp: m.timestamp,
        delivery_status: m.delivery_status,
        is_outgoing: m.is_outgoing,
    }
}

// ── Conversations ──────────────────────────────────────────────

/// A conversation: a direct or group thread with its ordered messages.
#[derive(Debug)]
pub struct Conversation {
    pub id: String,
    pub conversation_type: ConversationType,
    pub display_name: String,
    pub messages: Vec<StoredMessage>,
    pub unread_count: u32,
    /// Milliseconds since the Unix epoch.
    pub last_message_at: Option<i64>,
    /// Peer ids of members (for groups).
    pub members: Vec<String>,
}

pub struct ConversationModel {
    pub id: Seq<char>,
    pub conversation_type: ConversationType,
    pub display_name: Seq<char>,
    pub messages: Seq<StoredMessageModel>,
    pub unread_count: u32,
    pub last_message_at: Option<int>,
    pub members: Seq<Seq<char>>,
}

impl View for Conversation {
    type V = ConversationModel;

    open spec fn view(&self) -> ConversationModel {
        ConversationModel {
            id: self.id@,
            conversation_type: self.conversation_type,
            display_name: self.display_name@,
            messages: Seq::new(self.messages@.len(), |i: int| self.messages@[i]@),
            unread_count: self.unread_count,
            last_message_at: match self.last_message_at {
                Some(t) => Some(t as int),
                None => None,
            },
            members: Seq::new(self.members@.len(), |i: int| self.members@[i]@),
        }
    }
}

pub fn clone_conversation(c: &Conversation) -> (r: Conversation)
    ensures
        r@ == c@,
{
    let mut messages: Vec<StoredMessage> = Vec::new();
    let mut i: usize = 0;
    while i < c.messages.len()
        invariant
            i <= c.messages@.len(),
            messages@.len() == i,
            forall|n: int| 0 <= n < i ==> (#[trigger] messages@[n])@ == c.messages@[n]@,
        decreases c.messages@.len() - i,
    {
        messages.push(clone_stored_message(&c.messages[i]));
        i = i + 1;
    }
    let mut members: Vec<String> = Vec::new();
    let mut j: usize = 0;
    while j < c.members.len()
        invariant
            j <= c.members@.len(),
            members@.len() == j,
            forall|n: int| 0 <= n < j ==> (#[trigger] members@[n])@ == c.members@[n]@,
        decreases c.members@.len() - j,
    {
        members.push(c.members[j].clone());
        j = j + 1;
    }
    let r = Conversation {
        id: c.id.clone(),
        conversation_type: c.conversation_type,
        display_name: c.display_name.clone(),
        messages,
        unread_count: c.unread_count,
        last_message_at: c.last_message_at,
        members,
    };
    proof {
        assert(r@.messages =~= c@.messages);
        assert(r@.members =~= c@.members);
        assert(r@ == c@);
    }
    r
}

// ── The store ──────────────────────────────────────────────────

/// Update the delivery status of the first message with the given id.
pub open spec fn update_status_spec(
    msgs: Seq<StoredMessageModel>,
    message_id: Seq<char>,
    status: DeliveryStatus,
) -> Seq<StoredMessageModel>
    decreases msgs.len(),
{
    if msgs.len() == 0 {
        msgs
    } else if msgs[0].id == message_id {
        seq![StoredMessageModel { delivery_status: status, ..msgs[0] }] + msgs.drop_first()
    } else {
        seq![msgs[0]] + update_status_spec(msgs.drop_first(), message_id, status)
    }
}

/// The messages older than the cut-off (all of them when there is none).
pub open spec fn filter_older(msgs: Seq<StoredMessageModel>, before: Option<int>) -> Seq<
    StoredMessageModel,
>
    decreases msgs.len(),
{
    if msgs.len() == 0 {
        msgs
    } else {
        let keep = match before {
            None => true,
            Some(b) => msgs[0].timestamp < b,
        };
        (if keep {
            seq![msgs[0]]
        } else {
            Seq::empty()
        }) + filter_older(msgs.drop_first(), before)
    }
}

/// Durable per-conversation message log.  Durability is layered on top: a
/// host hydrates conversations at startup and exports them after each
/// mutation.
pub struct MessageStore {
    conversations: Vec<Conversation>,
    model: Ghost<Map<Seq<char>, ConversationModel>>,
}

impl MessageStore {
    /// The conversations: id to record.
    pub closed spec fn model(&self) -> Map<Seq<char>, ConversationModel> {
        self.model@
    }

    pub closed spec fn wf(&self) -> bool {
        &&& forall|i: int, j: int|
            0 <= i < j < self.conversations@.len() ==> (#[trigger] self.conversations@[i]).id@
                != (#[trigger] self.conversations@[j]).id@
        &&& forall|k: Seq<char>|
            self.model@.contains_key(k) <==> exists|i: int|
                0 <= i < self.conversations@.len() && (#[trigger] self.conversations@[i]).id@
                    == k
        &&& forall|i: int|
            0 <= i < self.conversations@.len() ==> (#[trigger] self.model@[
                self.conversations@[i].id@
            ]) == self.conversations@[i]@
    }

    pub fn new() -> (r: MessageStore)
        ensures
            r.wf(),
            r.model() == Map::<Seq<char>, ConversationModel>::empty(),
    {
        MessageStore { conversations: Vec::new(), model: Ghost(Map::empty()) }
    }

    fn find(&self, conversation_id: &str) -> (r: Option<usize>)
        ensures
            match r {
                Some(i) => i < self.conversations@.len() && self.conversations@[i as int].id@
                    == conversation_id@,
                None => forall|i: int|
                    0 <= i < self.conversations@.len() ==> (
                    #[trigger] self.conversations@[i]).id@ != conversation_id@,
            },
    {
        let mut i: usize = 0;
        while i < self.conversations.len()
            invariant
                i <= self.conversations@.len(),
                forall|k: int|
                    0 <= k < i ==> (#[trigger] self.conversations@[k]).id@ != conversation_id@,
            decreases self.conversations@.len() - i,
        {
            if str_eq(self.conversations[i].id.as_str(), conversation_id) {
                return Some(i);
            }
            i = i + 1;
        }
        None
    }

    /// Install a conversation record, replacing what was there.
    fn put(&mut self, conversation: Conversation)
        requires
            old(self).wf(),
        ensures
            final(self).wf(),
            final(self).model() == old(self).model().insert(conversation.id@, conversation@),
    {
        let ghost key = conversation.id@;
        let ghost m = conversation@;
        match self.find(conversation.id.as_str()) {
            Some(i) => {
                self.conversations.set(i, conversation);
                proof {
                    self.model@ = self.model@.insert(key, m);
                    assert forall|k: Seq<char>| self.model@.contains_key(k) implies exists|
                        n: int,
                    |
                        0 <= n < self.conversations@.len() && (
                        #[trigger] self.conversations@[n]).id@ == k by {
                        if k == key {
                            assert(self.conversations@[i as int].id@ == k);
                        } else {
                            let n = choose|n: int|
                                0 <= n < old(self).conversations@.len() && (#[trigger] old(self).conversations@[n]).id@ == k;
                            assert(self.conversations@[n].id@ == k);
                        }
                    }
                }
            },
            None => {
                self.conversations.push(conversation);
                proof {
                    self.model@ = self.model@.insert(key, m);
                    let len = self.conversations@.len();
                    assert forall|k: Seq<char>| self.model@.contains_key(k) implies exists|
                        n: int,
                    |
                        0 <= n < len && (#[trigger] self.conversations@[n]).id@ == k by {
                        if k == key {
                            assert(self.conversations@[len - 1].id@ == k);
                        } else {
                            let n = choose|n: int|
                                0 <= n < old(self).conversations@.len() && (#[trigger] old(self).conversations@[n]).id@ == k;
                            assert(self.conversations@[n].id@ == k);
                        }
                    }
                }
            },
        }
    }

    /// The id of the direct conversation with a peer.
    pub fn direct_conversation_id(peer_id: &str) -> (r: String)
        ensures
            r@ == seq!['d', 'm', ':'] + peer_id@,
    {
        proof {
            reveal_strlit("dm:");
        }
        let mut out = String::from_str("dm:");
        out.append(peer_id);
        proof {
            assert(out@ =~= seq!['d', 'm', ':'] + peer_id@);
        }
        out
    }

    /// Ensure the direct conversation with a peer exists; idempotent.
    pub fn get_or_create_direct(&mut self, peer_id: &str)
        requires
            old(self).wf(),
        ensures
            final(self).wf(),
            final(self).model().contains_key(seq!['d', 'm', ':'] + peer_id@),
            old(self).model().contains_key(seq!['d', 'm', ':'] + peer_id@) ==> final(self).model() == old(self).model(),
            !old(self).model().contains_key(seq!['d', 'm', ':'] + peer_id@) ==> final(self).model() == old(self).model().insert(
                seq!['d', 'm', ':'] + peer_id@,
                ConversationModel {
                    id: seq!['d', 'm', ':'] + peer_id@,
                    conversation_type: ConversationType::Direct,
                    display_name: short_peer_id_spec(peer_id@),
                    messages: Seq::empty(),
                    unread_count: 0,
                    last_message_at: None,
                    members: seq![peer_id@],
                },
            ),
    {
        let conv_id = MessageStore::direct_conversation_id(peer_id);
        match self.find(conv_id.as_str()) {
            Some(_) => {
                assert(self.model@.contains_key(conv_id@));
            },
            None => {
                let mut members: Vec<String> = Vec::new();
                members.push(peer_id.to_owned());
                let conversation = Conversation {
                    id: conv_id,
                    conversation_type: ConversationType::Direct,
                    display_name: short_peer_id(peer_id),
                    messages: Vec::new(),
                    unread_count: 0,
                    last_message_at: None,
                    members,
                };
                proof {
                    assert(conversation@.messages =~= Seq::<StoredMessageModel>::empty());
                    assert(conversation@.members =~= seq![peer_id@]);
                }
                self.put(conversation);
            },
        }
    }

    /// Ensure a group conversation exists; idempotent.
    pub fn get_or_create_group(&mut self, group_id: &str, group_name: &str, members: Vec<String>)
        requires
            old(self).wf(),
        ensures
            final(self).wf(),
            final(self).model().contains_key(group_id@),
            old(self).model().contains_key(group_id@) ==> final(self).model() == old(self).model(),
            !old(self).model().contains_key(group_id@) ==> final(self).model() == old(self).model().insert(
                group_id@,
                ConversationModel {
                    id: group_id@,
                    conversation_type: ConversationType::Group,
                    display_name: group_name@,
                    messages: Seq::empty(),
                    unread_count: 0,
                    last_message_at: None,
                    members: Seq::new(members@.len(), |i: int| members@[i]@),
                },
            ),
    {
        match self.find(group_id) {
            Some(_) => {
                assert(self.model@.contains_key(group_id@));
            },
            None => {
                let conversation = Conversation {
                    id: group_id.to_owned(),
                    conversation_type: ConversationType::Group,
                    display_name: group_name.to_owned(),
                    messages: Vec::new(),
                    unread_count: 0,
                    last_message_at: None,
                    members,
                };
                proof {
                    assert(conversation@.messages =~= Seq::<StoredMessageModel>::empty());
                }
                self.put(conversation);
            },
        }
    }

    /// Append a message: the conversation's last-message time becomes the
    /// message's, and the unread counter grows for inbound messages.  A
    /// message for an unknown conversation is dropped, as the log cannot
    /// place it.
    pub fn add_message(&mut self, conversation_id: &str, message: StoredMessage) -> (r: Result<
        (),
        ArchivistError,
    >)
        requires
            old(self).wf(),
        ensures
            final(self).wf(),
            r is Ok,
            !old(self).model().contains_key(conversation_id@) ==> final(self).model() == old(self).model(),
            old(self).model().contains_key(conversation_id@) ==> final(self).model() == old(self).model().insert(
                conversation_id@,
                ConversationModel {
                    messages: old(self).model()[conversation_id@].messages.push(message@),
                    last_message_at: Some(message.timestamp as int),
                    unread_count: if message.is_outgoing {
                        old(self).model()[conversation_id@].unread_count
                    } else if old(self).model()[conversation_id@].unread_count < 0xffff_ffff {
                        (old(self).model()[conversation_id@].unread_count + 1) as u32
                    } else {
                        old(self).model()[conversation_id@].unread_count
                    },
                    ..old(self).model()[conversation_id@]
                },
            ),
    {
        let i = match self.find(conversation_id) {
            Some(i) => i,
            None => {
                return Ok(());
            },
        };
        let mut conversation = self.conversations.remove(i);
        let ghost old_model = old(self).model@[conversation_id@];
        conversation.last_message_at = Some(message.timestamp);
        if !message.is_outgoing && conversation.unread_count < 0xffff_ffff {
            conversation.unread_count = conversation.unread_count + 1;
        }
        let ghost msg_model = message@;
        conversation.messages.push(message);
        proof {
            assert(conversation@.messages =~= old_model.messages.push(msg_model));
        }
        self.conversations.insert(i, conversation);
        proof {
            self.model@ = self.model@.insert(conversation_id@, self.conversations@[i as int]@);
            assert forall|k: Seq<char>| self.model@.contains_key(k) implies exists|n: int|
                0 <= n < self.conversations@.len() && (#[trigger] self.conversations@[n]).id@
                    == k by {
                let n = choose|n: int|
                    0 <= n < old(self).conversations@.len() && (#[trigger] old(self).conversations@[n]).id@ == k;
                assert(self.conversations@[n].id@ == k);
            }
            assert(self.wf());
        }
        Ok(())
    }

    /// Move the first message with the given id to the new delivery status.
    pub fn update_delivery_status(
        &mut self,
        conversation_id: &str,
        message_id: &str,
        status: DeliveryStatus,
    ) -> (r: Result<(), ArchivistError>)
        requires
            old(self).wf(),
        ensures
            final(self).wf(),
            r is Ok,
            !old(self).model().contains_key(conversation_id@) ==> final(self).model() == old(self).model(),
            old(self).model().contains_key(conversation_id@) ==> final(self).model() == old(self).model().insert(
                conversation_id@,
                ConversationModel {
                    messages: update_status_spec(
                        old(self).model()[conversation_id@].messages,
                        message_id@,
                        status,
                    ),
                    ..old(self).model()[conversation_id@]
                },
            ),
    {
        let i = match self.find(conversation_id) {
            Some(i) => i,
            None => {
                return Ok(());
            },
        };
        let mut conversation = self.conversations.remove(i);
        let ghost old_msgs = conversation@.messages;
        let ghost old_conv = conversation@;
        let mut j: usize = 0;
        let n = conversation.messages.len();
        loop
            invariant_except_break
                forall|k: int|
                    0 <= k < j ==> (#[trigger] conversation@.messages[k]).id != message_id@,
                conversation@.messages == old_msgs,
            invariant
                n == conversation.messages@.len(),
                j <= n,
                conversation@ == (ConversationModel { messages: conversation@.messages, ..old_conv }),
            ensures
                conversation@ == (ConversationModel {
                    messages: update_status_spec(old_msgs, message_id@, status),
                    ..old_conv
                }),
            decreases n - j,
        {
            if j >= n {
                proof {
                    lemma_update_status_missing(old_msgs, message_id@, status);
                }
                break;
            }
            if str_eq(conversation.messages[j].id.as_str(), message_id) {
                let updated = StoredMessage {
                    delivery_status: status,
                    ..clone_stored_message(&conversation.messages[j])
                };
                conversation.messages.set(j, updated);
                proof {
                    lemma_update_status_at(old_msgs, message_id@, status, j as int);
                    assert(conversation@.messages =~= update_status_spec(
                        old_msgs,
                        message_id@,
                        status,
                    ));
                }
                break;
            }
            j = j + 1;
        }
        self.conversations.insert(i, conversation);
        proof {
            self.model@ = self.model@.insert(conversation_id@, self.conversations@[i as int]@);
            assert forall|k: Seq<char>| self.model@.contains_key(k) implies exists|n2: int|
                0 <= n2 < self.conversations@.len() && (#[trigger] self.conversations@[n2]).id@
                    == k by {
                let n2 = choose|n2: int|
                    0 <= n2 < old(self).conversations@.len() && (#[trigger] old(self).conversations@[n2]).id@ == k;
                assert(self.conversations@[n2].id@ == k);
            }
            assert(self.wf());
        }
        Ok(())
    }

    /// Zero a conversation's unread counter.
    pub fn mark_read(&mut self, conversation_id: &str) -> (r: Result<(), ArchivistError>)
        requires
            old(self).wf(),
        ensures
            final(self).wf(),
            r is Ok,
            !old(self).model().contains_key(conversation_id@) ==> final(self).model() == old(self).model(),
            old(self).model().contains_key(conversation_id@) ==> final(self).model() == old(self).model().insert(
                conversation_id@,
                ConversationModel { unread_count: 0, ..old(self).model()[conversation_id@] },
            ),
    {
        let i = match self.find(conversation_id) {
            Some(i) => i,
            None => {
                return Ok(());
            },
        };
        let mut conversation = self.conversations.remove(i);
        conversation.unread_count = 0;
        self.conversations.insert(i, conversation);
        proof {
            self.model@ = self.model@.insert(conversation_id@, self.conversations@[i as int]@);
            assert forall|k: Seq<char>| self.model@.contains_key(k) implies exists|n: int|
                0 <= n < self.conversations@.len() && (#[trigger] self.conversations@[n]).id@
                    == k by {
                let n = choose|n: int|
                    0 <= n < old(self).conversations@.len() && (#[trigger] old(self).conversations@[n]).id@ == k;
                assert(self.conversations@[n].id@ == k);
            }
            assert(self.wf());
        }
        Ok(())
    }

    /// Remove a conversation from the store.  Its backing file, if any, is
    /// the host's to delete.
    pub fn delete_conversation(&mut self, conversation_id: &str) -> (r: Result<
        (),
        ArchivistError,
    >)
        requires
            old(self).wf(),
        ensures
            final(self).wf(),
            r is Ok,
            final(self).model() == old(self).model().remove(conversation_id@),
    {
        match self.find(conversation_id) {
            Some(i) => {
                self.conversations.remove(i);
                proof {
                    self.model@ = self.model@.remove(conversation_id@);
                    assert forall|k: Seq<char>| self.model@.contains_key(k) implies exists|
                        n: int,
                    |
                        0 <= n < self.conversations@.len() && (
                        #[trigger] self.conversations@[n]).id@ == k by {
                        let n = choose|n: int|
                            0 <= n < old(self).conversations@.len() && (#[trigger] old(self).conversations@[n]).id@ == k;
                        if n < i {
                            assert(self.conversations@[n].id@ == k);
                        } else {
                            assert(n > i);
                            assert(self.conversations@[n - 1].id@ == k);
                        }
                    }
                    assert forall|k: Seq<char>|
                        (exists|n: int|
                            0 <= n < self.conversations@.len() && (
                            #[trigger] self.conversations@[n]).id@ == k) implies
                        self.model@.contains_key(k) by {
                        let n = choose|n: int|
                            0 <= n < self.conversations@.len() && (
                            #[trigger] self.conversations@[n]).id@ == k;
                        if n < i {
                            assert(old(self).conversations@[n].id@ == k);
                            assert(k != conversation_id@);
                        } else {
                            assert(old(self).conversations@[n + 1].id@ == k);
                            assert(k != conversation_id@);
                        }
                    }
                    assert(self.wf());
                }
                Ok(())
            },
            None => {
                proof {
                    assert(final(self).model() =~= old(self).model().remove(conversation_id@));
                }
                Ok(())
            },
        }
    }

    /// The messages of a conversation strictly older than `before` (all of
    /// them when absent), at most `limit` of them, in chronological order.
    pub fn get_messages(&self, conversation_id: &str, limit: usize, before: Option<i64>) -> (r:
        Vec<StoredMessage>)
        requires
            self.wf(),
        ensures
            !self.model().contains_key(conversation_id@) ==> r@.len() == 0,
            self.model().contains_key(conversation_id@) ==> {
                let filtered = filter_older(
                    self.model()[conversation_id@].messages,
                    match before {
                        Some(b) => Some(b as int),
                        None => None,
                    },
                );
                let k = if limit < filtered.len() {
                    limit as int
                } else {
                    filtered.len() as int
                };
                Seq::new(r@.len(), |i: int| r@[i]@) =~= filtered.subrange(
                    filtered.len() - k,
                    filtered.len() as int,
                )
            },
    {
        let i = match self.find(conversation_id) {
            Some(i) => i,
            None => {
                let empty: Vec<StoredMessage> = Vec::new();
                return empty;
            },
        };
        let conversation = &self.conversations[i];
        let ghost msgs = conversation@.messages;
        let ghost beforeg = match before {
            Some(b) => Some(b as int),
            None => None,
        };
        let mut filtered: Vec<StoredMessage> = Vec::new();
        let mut j: usize = 0;
        let n = conversation.messages.len();
        while j < n
            invariant
                self.wf(),
                i < self.conversations@.len(),
                self.conversations@[i as int]@.messages == msgs,
                n == self.conversations@[i as int].messages@.len(),
                msgs.len() == n,
                j <= n,
                beforeg == (match before {
                    Some(b) => Some(b as int),
                    None => None,
                }),
                Seq::new(filtered@.len(), |t: int| filtered@[t]@) =~= filter_older(
                    msgs.subrange(0, j as int),
                    beforeg,
                ),
            decreases n - j,
        {
            let m = &self.conversations[i].messages[j];
            let keep = match before {
                None => true,
                Some(b) => m.timestamp < b,
            };
            if keep {
                filtered.push(clone_stored_message(m));
            }
            proof {
                lemma_filter_older_snoc(msgs, beforeg, j as int);
                assert(Seq::new(filtered@.len(), |t: int| filtered@[t]@) =~= filter_older(
                    msgs.subrange(0, j + 1),
                    beforeg,
                ));
            }
            j = j + 1;
        }
        proof {
            assert(msgs.subrange(0, n as int) =~= msgs);
        }
        let total = filtered.len();
        let take = if limit < total {
            limit
        } else {
            total
        };
        let start = total - take;
        let mut out: Vec<StoredMessage> = Vec::new();
        let mut t = start;
        while t < total
            invariant
                start <= t <= total,
                total == filtered@.len(),
                forall|x: int|
                    0 <= x < filtered@.len() ==> (#[trigger] filtered@[x])@ == filter_older(
                        msgs,
                        beforeg,
                    )[x],
                filtered@.len() == filter_older(msgs, beforeg).len(),
                out@.len() == t - start,
                forall|x: int|
                    0 <= x < out@.len() ==> (#[trigger] out@[x])@ == filter_older(msgs, beforeg)[
                        start + x
                    ],
            decreases total - t,
        {
            out.push(clone_stored_message(&filtered[t]));
            t = t + 1;
        }
        proof {
            assert(Seq::new(out@.len(), |x: int| out@[x]@) =~= filter_older(
                msgs,
                beforeg,
            ).subrange(start as int, total as int));
        }
        out
    }

    /// The total unread count over all conversations, saturating.
    pub fn total_unread(&self) -> (r: u32)
        requires
            self.wf(),
        ensures
            r == sum_unread(Seq::new(self.convs().len(), |i: int| self.convs()[i].unread_count)),
    {
        let mut total: u32 = 0;
        let mut i: usize = 0;
        let ghost counts = Seq::new(self.convs().len(), |n: int| self.convs()[n].unread_count);
        while i < self.conversations.len()
            invariant
                self.wf(),
                i <= self.conversations@.len(),
                counts == Seq::new(self.convs().len(), |n: int| self.convs()[n].unread_count),
                counts.len() == self.conversations@.len(),
                total == sum_unread(counts.subrange(0, i as int)),
            decreases self.conversations@.len() - i,
        {
            let c = self.conversations[i].unread_count;
            if total as u64 + c as u64 <= 0xffff_ffffu64 {
                total = total + c;
            } else {
                total = 0xffff_ffffu32;
            }
            proof {
                lemma_sum_unread_snoc(counts, i as int);
            }
            i = i + 1;
        }
        proof {
            assert(counts.subrange(0, counts.len() as int) =~= counts);
        }
        total
    }

    /// The conversation records, visible only to specifications.
    pub closed spec fn convs(&self) -> Seq<ConversationModel> {
        Seq::new(self.conversations@.len(), |i: int| self.conversations@[i]@)
    }

    pub fn conversation_count(&self) -> (r: u32)
        requires
            self.wf(),
        ensures
            r == (if self.convs().len() <= 0xffff_ffff {
                self.convs().len() as int
            } else {
                0xffff_ffff
            }),
    {
        let n = self.conversations.len();
        if n <= 0xffff_ffff {
            n as u32
        } else {
            0xffff_ffffu32
        }
    }

    /// The id of the direct conversation with a peer, if one exists.
    pub fn find_dm_conversation(&self, peer_id: &str) -> (r: Option<String>)
        requires
            self.wf(),
        ensures
            r is Some <==> self.model().contains_key(seq!['d', 'm', ':'] + peer_id@),
            r is Some ==> r->Some_0@ == seq!['d', 'm', ':'] + peer_id@,
    {
        let conv_id = MessageStore::direct_conversation_id(peer_id);
        match self.find(conv_id.as_str()) {
            Some(_) => {
                assert(self.model@.contains_key(conv_id@));
                Some(conv_id)
            },
            None => None,
        }
    }

    /// Add a member to a group conversation, if it is not already listed.
    pub fn add_group_member(&mut self, group_id: &str, peer_id: &str) -> (r: Result<
        (),
        ArchivistError,
    >)
        requires
            old(self).wf(),
        ensures
            final(self).wf(),
            r is Ok,
            !old(self).model().contains_key(group_id@) ==> final(self).model() == old(self).model(),
            old(self).model().contains_key(group_id@) ==> final(self).model() == old(self).model().insert(
                group_id@,
                ConversationModel {
                    members: if old(self).model()[group_id@].members.contains(peer_id@) {
                        old(self).model()[group_id@].members
                    } else {
                        old(self).model()[group_id@].members.push(peer_id@)
                    },
                    ..old(self).model()[group_id@]
                },
            ),
    {
        let i = match self.find(group_id) {
            Some(i) => i,
            None => {
                return Ok(());
            },
        };
        let mut conversation = self.conversations.remove(i);
        let ghost old_members = conversation@.members;
        let mut present = false;
        let mut j: usize = 0;
        let n = conversation.members.len();
        while j < n
            invariant
                n == conversation.members@.len(),
                conversation@.members == old_members,
                j <= n,
                present == exists|k: int| 0 <= k < j && (#[trigger] old_members[k]) == peer_id@,
            decreases n - j,
        {
            if str_eq(conversation.members[j].as_str(), peer_id) {
                assert(old_members[j as int] == peer_id@);
                present = true;
            }
            j = j + 1;
        }
        assert(present == old_members.contains(peer_id@));
        if !present {
            conversation.members.push(peer_id.to_owned());
            proof {
                assert(conversation@.members =~= old_members.push(peer_id@));
            }
        }
        self.conversations.insert(i, conversation);
        proof {
            self.model@ = self.model@.insert(group_id@, self.conversations@[i as int]@);
            assert forall|k: Seq<char>| self.model@.contains_key(k) implies exists|n2: int|
                0 <= n2 < self.conversations@.len() && (#[trigger] self.conversations@[n2]).id@
                    == k by {
                let n2 = choose|n2: int|
                    0 <= n2 < old(self).conversations@.len() && (#[trigger] old(self).conversations@[n2]).id@ == k;
                assert(self.conversations@[n2].id@ == k);
            }
            assert(self.wf());
        }
        Ok(())
    }

    /// Remove a member from a group conversation.
    pub fn remove_group_member(&mut self, group_id: &str, peer_id: &str) -> (r: Result<
        (),
        ArchivistError,
    >)
        requires
            old(self).wf(),
        ensures
            final(self).wf(),
            r is Ok,
            !old(self).model().contains_key(group_id@) ==> final(self).model() == old(self).model(),
            old(self).model().contains_key(group_id@) ==> final(self).model() == old(self).model().insert(
                group_id@,
                ConversationModel {
                    members: old(self).model()[group_id@].members.filter(
                        |m: Seq<char>| m != peer_id@,
                    ),
                    ..old(self).model()[group_id@]
                },
            ),
    {
        let i = match self.find(group_id) {
            Some(i) => i,
            None => {
                return Ok(());
            },
        };
        let mut conversation = self.conversations.remove(i);
        let ghost old_members = conversation@.members;
        let mut kept: Vec<String> = Vec::new();
        let mut j: usize = 0;
        let n = conversation.members.len();
        while j < n
            invariant
                n == conversation.members@.len(),
                conversation@.members == old_members,
                j <= n,
                Seq::new(kept@.len(), |t: int| kept@[t]@) =~= old_members.subrange(
                    0,
                    j as int,
                ).filter(|m: Seq<char>| m != peer_id@),
            decreases n - j,
        {
            let ghost pre = old_members.subrange(0, j as int);
            if !str_eq(conversation.members[j].as_str(), peer_id) {
                kept.push(conversation.members[j].clone());
            }
            proof {
                reveal(Seq::filter);
                let appended = old_members.subrange(0, j + 1);
                assert(appended =~= pre.push(old_members[j as int]));
                assert(appended.drop_last() =~= pre);
                assert(appended.last() == old_members[j as int]);
                assert(Seq::new(kept@.len(), |t: int| kept@[t]@) =~= old_members.subrange(
                    0,
                    j + 1,
                ).filter(|m: Seq<char>| m != peer_id@));
            }
            j = j + 1;
        }
        proof {
            assert(old_members.subrange(0, n as int) =~= old_members);
        }
        conversation.members = kept;
        self.conversations.insert(i, conversation);
        proof {
            self.model@ = self.model@.insert(group_id@, self.conversations@[i as int]@);
            assert forall|k: Seq<char>| self.model@.contains_key(k) implies exists|n2: int|
                0 <= n2 < self.conversations@.len() && (#[trigger] self.conversations@[n2]).id@
                    == k by {
                let n2 = choose|n2: int|
                    0 <= n2 < old(self).conversations@.len() && (#[trigger] old(self).conversations@[n2]).id@ == k;
                assert(self.conversations@[n2].id@ == k);
            }
            assert(self.wf());
        }
        Ok(())
    }

    /// Install a conversation record read back from durable storage.
    pub fn hydrate_conversation(&mut self, conversation: Conversation)
        requires
            old(self).wf(),
        ensures
            final(self).wf(),
            final(self).model() == old(self).model().insert(conversation.id@, conversation@),
    {
        self.put(conversation)
    }

    /// A copy of a conversation record, for a host to persist.
    pub fn export_conversation(&self, conversation_id: &str) -> (r: Option<Conversation>)
        requires
            self.wf(),
        ensures
            r is Some <==> self.model().contains_key(conversation_id@),
            r is Some ==> r->0@ == self.model()[conversation_id@],
    {
        match self.find(conversation_id) {
            Some(i) => Some(clone_conversation(&self.conversations[i])),
            None => None,
        }
    }
}

/// Saturating sum of unread counters.
pub open spec fn sum_unread(counts: Seq<u32>) -> u32
    decreases counts.len(),
{
    if counts.len() == 0 {
        0u32
    } else {
        let rest = sum_unread(counts.drop_last());
        if rest + counts.last() <= 0xffff_ffff {
            (rest + counts.last()) as u32
        } else {
            0xffff_ffffu32
        }
    }
}

proof fn lemma_sum_unread_snoc(counts: Seq<u32>, i: int)
    requires
        0 <= i < counts.len(),
    ensures
        sum_unread(counts.subrange(0, i + 1)) == (if sum_unread(counts.subrange(0, i))
            + counts[i] <= 0xffff_ffff {
            (sum_unread(counts.subrange(0, i)) + counts[i]) as u32
        } else {
            0xffff_ffffu32
        }),
{
    let pre = counts.subrange(0, i + 1);
    assert(pre.drop_last() =~= counts.subrange(0, i));
    assert(pre.last() == counts[i]);
}

proof fn lemma_update_status_missing(
    msgs: Seq<StoredMessageModel>,
    message_id: Seq<char>,
    status: DeliveryStatus,
)
    requires
        forall|k: int| 0 <= k < msgs.len() ==> (#[trigger] msgs[k]).id != message_id,
    ensures
        update_status_spec(msgs, message_id, status) == msgs,
    decreases msgs.len(),
{
    if msgs.len() > 0 {
        lemma_update_status_missing(msgs.drop_first(), message_id, status);
        assert(update_status_spec(msgs, message_id, status) =~= msgs);
    }
}

proof fn lemma_update_status_at(
    msgs: Seq<StoredMessageModel>,
    message_id: Seq<char>,
    status: DeliveryStatus,
    j: int,
)
    requires
        0 <= j < msgs.len(),
        msgs[j].id == message_id,
        forall|k: int| 0 <= k < j ==> (#[trigger] msgs[k]).id != message_id,
    ensures
        update_status_spec(msgs, message_id, status) == msgs.update(
            j,
            StoredMessageModel { delivery_status: status, ..msgs[j] },
        ),
    decreases j,
{
    if j == 0 {
        assert(update_status_spec(msgs, message_id, status) =~= msgs.update(
            0,
            StoredMessageModel { delivery_status: status, ..msgs[0] },
        ));
    } else {
        lemma_update_status_at(msgs.drop_first(), message_id, status, j - 1);
        assert(msgs.drop_first().update(
            j - 1,
            StoredMessageModel { delivery_status: status, ..msgs[j] },
        ) =~= msgs.update(j, StoredMessageModel { delivery_status: status, ..msgs[j] }).drop_first());
        assert(update_status_spec(msgs, message_id, status) =~= msgs.update(
            j,
            StoredMessageModel { delivery_status: status, ..msgs[j] },
        ));
    }
}

proof fn lemma_filter_older_snoc(msgs: Seq<StoredMessageModel>, before: Option<int>, j: int)
    requires
        0 <= j < msgs.len(),
    ensures
        filter_older(msgs.subrange(0, j + 1), before) == filter_older(
            msgs.subrange(0, j),
            before,
        ) + (if (match before {
            None => true,
            Some(b) => msgs[j].timestamp < b,
        }) {
            seq![msgs[j]]
        } else {
            Seq::<StoredMessageModel>::empty()
        }),
    decreases j,
{
    if j == 0 {
        assert(msgs.subrange(0, 1).drop_first() =~= msgs.subrange(0, 0));
        assert(filter_older(msgs.subrange(0, 0), before) =~= Seq::<StoredMessageModel>::empty());
        assert(filter_older(msgs.subrange(0, 1), before) =~= filter_older(
            msgs.subrange(0, 0),
            before,
        ) + (if (match before {
            None => true,
            Some(b) => msgs[0].timestamp < b,
        }) {
            seq![msgs[0]]
        } else {
            Seq::<StoredMessageModel>::empty()
        }));
    } else {
        let t = msgs.drop_first();
        lemma_filter_older_snoc(t, before, j - 1);
        assert(msgs.subrange(0, j + 1).drop_first() =~= t.subrange(0, j));
        assert(msgs.subrange(0, j).drop_first() =~= t.subrange(0, j - 1));
        assert(t[j - 1] == msgs[j]);
        let keep0 = match before {
            None => true,
            Some(b) => msgs[0].timestamp < b,
        };
        let h = if keep0 {
            seq![msgs[0]]
        } else {
            Seq::<StoredMessageModel>::empty()
        };
        assert(filter_older(msgs.subrange(0, j + 1), before) == h + filter_older(
            t.subrange(0, j),
            before,
        ));
        assert(filter_older(msgs.subrange(0, j), before) == h + filter_older(
            t.subrange(0, j - 1),
            before,
        ));
        assert(h + (filter_older(t.subrange(0, j - 1), before) + (if (match before {
            None => true,
            Some(b) => msgs[j].timestamp < b,
        }) {
            seq![msgs[j]]
        } else {
            Seq::<StoredMessageModel>::empty()
        })) =~= (h + filter_older(t.subrange(0, j - 1), before)) + (if (match before {
            None => true,
            Some(b) => msgs[j].timestamp < b,
        }) {
            seq![msgs[j]]
        } else {
            Seq::<StoredMessageModel>::empty()
        }));
    }
}

/// Whether `a` is at least as recent as `b`; an absent time is oldest.
pub open spec fn opt_time_ge(a: Option<int>, b: Option<int>) -> bool {
    match b {
        None => true,
        Some(y) => match a {
            None => false,
            Some(x) => x >= y,
        },
    }
}

/// Whether a summary faithfully describes a conversation record.
pub open spec fn is_summary_of(s: SummaryModel, c: ConversationModel) -> bool {
    &&& s.id == c.id
    &&& s.conversation_type == c.conversation_type
    &&& s.display_name == c.display_name
    &&& s.last_message == (if c.messages.len() == 0 {
        Option::<Seq<char>>::None
    } else {
        Some(c.messages.last().content.text)
    })
    &&& s.last_message_at == c.last_message_at
    &&& s.unread_count == c.unread_count
    &&& s.members == (if c.conversation_type is Group {
        Some(c.members)
    } else {
        Option::<Seq<Seq<char>>>::None
    })
}

/// Whether a summary describes some conversation of the store.
pub open spec fn summary_in_store(s: SummaryModel, m: Map<Seq<char>, ConversationModel>) -> bool {
    exists|k: Seq<char>| #[trigger] m.contains_key(k) && is_summary_of(s, m[k])
}

/// Whether a summary describes one of the first `bound` conversations.
pub open spec fn summary_from(s: SummaryModel, convs: Seq<Conversation>, bound: int) -> bool {
    exists|n: int|
        0 <= n < bound && s.id == (#[trigger] convs[n]).id@ && is_summary_of(s, convs[n]@)
}

impl MessageStore {
    fn summarize(c: &Conversation) -> (r: ConversationSummary)
        ensures
            is_summary_of(r@, c@),
    {
        let last_message = if c.messages.len() == 0 {
            None
        } else {
            Some(c.messages[c.messages.len() - 1].content.text.clone())
        };
        let members = if matches!(c.conversation_type, ConversationType::Group) {
            let mut ms: Vec<String> = Vec::new();
            let mut j: usize = 0;
            while j < c.members.len()
                invariant
                    j <= c.members@.len(),
                    ms@.len() == j,
                    forall|n: int| 0 <= n < j ==> (#[trigger] ms@[n])@ == c.members@[n]@,
                decreases c.members@.len() - j,
            {
                ms.push(c.members[j].clone());
                j = j + 1;
            }
            proof {
                assert(Seq::new(ms@.len(), |n: int| ms@[n]@) =~= c@.members);
            }
            Some(ms)
        } else {
            None
        };
        let r = ConversationSummary {
            id: c.id.clone(),
            conversation_type: c.conversation_type,
            display_name: c.display_name.clone(),
            last_message,
            last_message_at: c.last_message_at,
            unread_count: c.unread_count,
            members,
        };
        proof {
            if c@.conversation_type is Group {
                assert(r@.members->0 =~= c@.members);
            }
        }
        r
    }

    /// The conversation summaries, most recently active first.  Ties and
    /// never-used conversations keep no particular order among themselves.
    pub fn get_conversation_summaries(&self) -> (r: Vec<ConversationSummary>)
        requires
            self.wf(),
        ensures
            r@.len() == self.convs().len(),
            forall|t: int|
                0 <= t < r@.len() ==> summary_in_store((#[trigger] r@[t])@, self.model()),
            forall|t1: int, t2: int|
                0 <= t1 < t2 < r@.len() ==> (#[trigger] r@[t1])@.id != (#[trigger] r@[t2])@.id,
            forall|t1: int, t2: int|
                0 <= t1 < t2 < r@.len() ==> opt_time_ge(
                    (#[trigger] r@[t1])@.last_message_at,
                    (#[trigger] r@[t2])@.last_message_at,
                ),
    {
        let mut out: Vec<ConversationSummary> = Vec::new();
        let mut i: usize = 0;
        while i < self.conversations.len()
            invariant
                self.wf(),
                i <= self.conversations@.len(),
                out@.len() == i,
                forall|t: int|
                    0 <= t < out@.len() ==> summary_from(
                        (#[trigger] out@[t])@,
                        self.conversations@,
                        i as int,
                    ),
                forall|t1: int, t2: int|
                    0 <= t1 < t2 < out@.len() ==> (#[trigger] out@[t1])@.id != (
                    #[trigger] out@[t2])@.id,
                forall|t1: int, t2: int|
                    0 <= t1 < t2 < out@.len() ==> opt_time_ge(
                        (#[trigger] out@[t1])@.last_message_at,
                        (#[trigger] out@[t2])@.last_message_at,
                    ),
            decreases self.conversations@.len() - i,
        {
            let s = MessageStore::summarize(&self.conversations[i]);
            let cur_at = s.last_message_at;
            let ghost cur_at_g = s@.last_message_at;
            let mut idx: usize = 0;
            loop
                invariant
                    idx <= out@.len(),
                    cur_at_g == (match cur_at {
                        Some(t) => Some(t as int),
                        None => None,
                    }),
                    forall|t: int|
                        0 <= t < idx ==> opt_time_ge(
                            (#[trigger] out@[t])@.last_message_at,
                            cur_at_g,
                        ),
                ensures
                    idx <= out@.len(),
                    forall|t: int|
                        0 <= t < idx ==> opt_time_ge(
                            (#[trigger] out@[t])@.last_message_at,
                            cur_at_g,
                        ),
                    idx < out@.len() ==> !opt_time_ge(
                        out@[idx as int]@.last_message_at,
                        cur_at_g,
                    ),
                decreases out@.len() - idx,
            {
                if idx >= out.len() {
                    break;
                }
                let there = out[idx].last_message_at;
                let ge = match (there, cur_at) {
                    (_, None) => true,
                    (None, Some(_)) => false,
                    (Some(x), Some(y)) => x >= y,
                };
                if !ge {
                    proof {
                        assert(!opt_time_ge(out@[idx as int]@.last_message_at, cur_at_g));
                    }
                    break;
                }
                proof {
                    assert(opt_time_ge(out@[idx as int]@.last_message_at, cur_at_g));
                }
                idx = idx + 1;
            }
            let ghost old_out = out@;
            out.insert(idx, s);
            proof {
                assert(out@ =~= old_out.subrange(0, idx as int).push(s) + old_out.subrange(
                    idx as int,
                    old_out.len() as int,
                ));
                assert forall|t1: int, t2: int|
                    0 <= t1 < t2 < out@.len() implies opt_time_ge(
                    (#[trigger] out@[t1])@.last_message_at,
                    (#[trigger] out@[t2])@.last_message_at,
                ) by {
                    if t1 < idx && t2 == idx {
                    } else if t1 == idx && t2 > idx {
                        assert(out@[t2] == old_out[t2 - 1]);
                        assert(!opt_time_ge(old_out[idx as int]@.last_message_at, cur_at_g));
                        assert(t2 - 1 >= idx);
                        if t2 - 1 > idx {
                            assert(opt_time_ge(
                                old_out[idx as int]@.last_message_at,
                                old_out[t2 - 1]@.last_message_at,
                            ));
                        }
                        lemma_opt_time_order(
                            cur_at_g,
                            old_out[idx as int]@.last_message_at,
                            old_out[t2 - 1]@.last_message_at,
                        );
                    } else if t1 < idx && t2 > idx {
                        assert(out@[t1] == old_out[t1]);
                        assert(out@[t2] == old_out[t2 - 1]);
                    } else if t1 != idx && t2 != idx {
                    }
                }
                assert forall|t: int|
                    0 <= t < out@.len() implies summary_from(
                    (#[trigger] out@[t])@,
                    self.conversations@,
                    i + 1,
                ) by {
                    if t == idx {
                        assert(out@[t]@.id == (self.conversations@[i as int]).id@
                            && is_summary_of(out@[t]@, self.conversations@[i as int]@));
                    } else {
                        let u = if t < idx {
                            t
                        } else {
                            t - 1
                        };
                        assert(summary_from(old_out[u]@, self.conversations@, i as int));
                        let n = choose|n: int|
                            0 <= n < i && old_out[u]@.id == (
                            #[trigger] self.conversations@[n]).id@ && is_summary_of(
                                old_out[u]@,
                                self.conversations@[n]@,
                            );
                        assert(out@[t] == old_out[u]);
                        assert(out@[t]@.id == (self.conversations@[n]).id@ && is_summary_of(
                            out@[t]@,
                            self.conversations@[n]@,
                        ));
                    }
                }
                assert forall|t1: int, t2: int|
                    0 <= t1 < t2 < out@.len() implies (#[trigger] out@[t1])@.id != (
                    #[trigger] out@[t2])@.id by {
                    if t1 == idx {
                        let u2 = t2 - 1;
                        assert(out@[t1]@.id == (self.conversations@[i as int]).id@);
                        assert(out@[t2] == old_out[u2]);
                        assert(summary_from(old_out[u2]@, self.conversations@, i as int));
                        let n2 = choose|n: int|
                            0 <= n < i && old_out[u2]@.id == (
                            #[trigger] self.conversations@[n]).id@ && is_summary_of(
                                old_out[u2]@,
                                self.conversations@[n]@,
                            );
                        assert(self.conversations@[n2].id@ != self.conversations@[
                            i as int
                        ].id@);
                    } else if t2 == idx {
                        let u1 = t1;
                        assert(out@[t2]@.id == (self.conversations@[i as int]).id@);
                        assert(out@[t1] == old_out[u1]);
                        assert(summary_from(old_out[u1]@, self.conversations@, i as int));
                        let n1 = choose|n: int|
                            0 <= n < i && old_out[u1]@.id == (
                            #[trigger] self.conversations@[n]).id@ && is_summary_of(
                                old_out[u1]@,
                                self.conversations@[n]@,
                            );
                        assert(self.conversations@[n1].id@ != self.conversations@[
                            i as int
                        ].id@);
                    } else {
                        let u1 = if t1 < idx { t1 } else { t1 - 1 };
                        let u2 = if t2 < idx { t2 } else { t2 - 1 };
                        assert(out@[t1] == old_out[u1]);
                        assert(out@[t2] == old_out[u2]);
                    }
                }
            }
            i = i + 1;
        }
        proof {
            assert forall|t: int|
                0 <= t < out@.len() implies summary_in_store((#[trigger] out@[t])@, self.model())
                by {
                assert(summary_from(out@[t]@, self.conversations@, self.conversations@.len() as int));
                let n = choose|n: int|
                    0 <= n < self.conversations@.len() && out@[t]@.id == (
                    #[trigger] self.conversations@[n]).id@ && is_summary_of(
                        out@[t]@,
                        self.conversations@[n]@,
                    );
                let k = self.conversations@[n].id@;
                assert(self.model().contains_key(k));
                assert(self.model()[k] == self.conversations@[n]@);
                assert(self.model().contains_key(k) && is_summary_of(out@[t]@, self.model()[k]));
            }
        }
        out
    }

    /// The unread counters of the conversations that have any.
    pub fn unread_by_conversation(&self) -> (r: Vec<(String, u32)>)
        requires
            self.wf(),
        ensures
            forall|t: int|
                0 <= t < r@.len() ==> (#[trigger] self.model().contains_key(r@[t].0@))
                    && self.model()[r@[t].0@].unread_count == r@[t].1 && r@[t].1 > 0,
            forall|k: Seq<char>|
                (#[trigger] self.model().contains_key(k) && self.model()[k].unread_count > 0)
                    ==> exists|t: int| 0 <= t < r@.len() && (#[trigger] r@[t]).0@ == k,
    {
        let mut out: Vec<(String, u32)> = Vec::new();
        let mut i: usize = 0;
        while i < self.conversations.len()
            invariant
                self.wf(),
                i <= self.conversations@.len(),
                forall|t: int|
                    0 <= t < out@.len() ==> (#[trigger] self.model().contains_key(out@[t].0@))
                        && self.model()[out@[t].0@].unread_count == out@[t].1 && out@[t].1 > 0,
                forall|n: int|
                    0 <= n < i && self.conversations@[n].unread_count > 0 ==> exists|t: int|
                        0 <= t < out@.len() && (#[trigger] out@[t]).0@ == (
                        #[trigger] self.conversations@[n]).id@,
            decreases self.conversations@.len() - i,
        {
            let ghost old_out = out@;
            if self.conversations[i].unread_count > 0 {
                let pair = (self.conversations[i].id.clone(), self.conversations[i].unread_count);
                out.push(pair);
                proof {
                    assert(out@[out@.len() - 1].0@ == self.conversations@[i as int].id@);
                }
            }
            proof {
                assert forall|n: int|
                    0 <= n < i + 1 && self.conversations@[n].unread_count > 0 implies exists|
                    t: int,
                |
                    0 <= t < out@.len() && (#[trigger] out@[t]).0@ == (
                    #[trigger] self.conversations@[n]).id@ by {
                    if n == i {
                        assert(out@[out@.len() - 1].0@ == self.conversations@[n].id@);
                    } else {
                        let t = choose|t: int|
                            0 <= t < old_out.len() && (#[trigger] old_out[t]).0@
                                == self.conversations@[n].id@;
                        assert(out@[t].0@ == self.conversations@[n].id@);
                    }
                }
            }
            i = i + 1;
        }
        proof {
            assert forall|k: Seq<char>|
                (#[trigger] self.model().contains_key(k) && self.model()[k].unread_count > 0)
                    implies exists|t: int| 0 <= t < out@.len() && (#[trigger] out@[t]).0@
                == k by {
                let n = choose|n: int|
                    0 <= n < self.conversations@.len() && (#[trigger] self.conversations@[n]).id@
                        == k;
                assert(self.conversations@[n].unread_count > 0);
            }
        }
        out
    }

    /// The ids of all conversations, each exactly once.
    pub fn conversation_ids(&self) -> (r: Vec<String>)
        requires
            self.wf(),
        ensures
            forall|t: int|
                0 <= t < r@.len() ==> #[trigger] self.model().contains_key(r@[t]@),
            forall|k: Seq<char>|
                #[trigger] self.model().contains_key(k) ==> exists|t: int|
                    0 <= t < r@.len() && (#[trigger] r@[t])@ == k,
            forall|t1: int, t2: int|
                0 <= t1 < t2 < r@.len() ==> (#[trigger] r@[t1])@ != (#[trigger] r@[t2])@,
    {
        let mut out: Vec<String> = Vec::new();
        let mut i: usize = 0;
        while i < self.conversations.len()
            invariant
                self.wf(),
                i <= self.conversations@.len(),
                out@.len() == i,
                forall|n: int| 0 <= n < i ==> (#[trigger] out@[n])@ == self.conversations@[n].id@,
            decreases self.conversations@.len() - i,
        {
            out.push(self.conversations[i].id.clone());
            i = i + 1;
        }
        proof {
            assert forall|k: Seq<char>| #[trigger]
                self.model().contains_key(k) implies exists|t: int|
                0 <= t < out@.len() && (#[trigger] out@[t])@ == k by {
                let n = choose|n: int|
                    0 <= n < self.conversations@.len() && (#[trigger] self.conversations@[n]).id@
                        == k;
                assert(out@[n]@ == k);
            }
        }
        out
    }
}

proof fn lemma_opt_time_order(a: Option<int>, b: Option<int>, c: Option<int>)
    requires
        !opt_time_ge(b, a),
        b == c || opt_time_ge(b, c),
    ensures
        opt_time_ge(a, c),
{
}

} // verus!
