use vstd::prelude::*;
use crate::crypto::identity::PreKeyBundle;

verus! {

// ── Wire protocol types ────────────────────────────────────────
//
// These are the JSON-shaped payloads of the transport.  The crate works on
// them as plain values; a host turns them into JSON at its edge.

/// Pre-key bundle exchange, sent during session establishment.
#[derive(Debug, Clone)]
pub struct PreKeyBundleExchange {
    pub sender_peer_id: String,
    pub bundle: PreKeyBundle,
    pub cert_fingerprint: String,
}

/// Message type indicator for pairwise ratchet messages.
#[derive(Debug, Clone, Copy, PartialEq, Eq, Structural)]
pub enum OlmMessageType {
    PreKey,
    Normal,
}

/// Encrypted 1-to-1 chat message.
#[derive(Debug, Clone)]
pub struct EncryptedChatMessage {
    pub message_id: String,
    pub sender_peer_id: String,
    pub sender_identity_key: String,
    pub message_type: OlmMessageType,
    pub ciphertext: String,
    /// Milliseconds since the Unix epoch.
    pub timestamp: i64,
}

/// Plaintext message content; it is framed to bytes before encryption.
#[derive(Debug, Clone)]
pub struct ChatMessageContent {
    pub text: String,
    pub reply_to: Option<String>,
    pub attachments: Vec<Attachment>,
}

/// File attachment shared by content address.
#[derive(Debug, Clone)]
pub struct Attachment {
    pub cid: String,
    pub filename: String,
    pub mime_type: String,
    pub size_bytes: u64,
}

pub struct AttachmentModel {
    pub cid: Seq<char>,
    pub filename: Seq<char>,
    pub mime_type: Seq<char>,
    pub size_bytes: u64,
}

impl View for Attachment {
    type V = AttachmentModel;

    open spec fn view(&self) -> AttachmentModel {
        AttachmentModel {
            cid: self.cid@,
            filename: self.filename@,
            mime_type: self.mime_type@,
            size_bytes: self.size_bytes,
        }
    }
}

pub struct ContentModel {
    pub text: Seq<char>,
    pub reply_to: Option<Seq<char>>,
    pub attachments: Seq<AttachmentModel>,
}

impl View for ChatMessageContent {
    type V = ContentModel;

    open spec fn view(&self) -> ContentModel {
        ContentModel {
            text: self.text@,
            reply_to: match self.reply_to {
                Some(ref r) => Some(r@),
                None => None,
            },
            attachments: Seq::new(self.attachments@.len(), |i: int| self.attachments@[i]@),
        }
    }
}

/// Group invitation.
#[derive(Debug, Clone)]
pub struct GroupInvite {
    pub group_id: String,
    pub group_name: String,
    pub creator_peer_id: String,
    pub members: Vec<GroupMemberInfo>,
    /// The exported group session key, encrypted per member over the
    /// pairwise session.
    pub encrypted_session_key: String,
}

/// Basic group member info.
#[derive(Debug, Clone)]
pub struct GroupMemberInfo {
    pub peer_id: String,
    pub identity_key: String,
}

/// Encrypted group message.
#[derive(Debug, Clone)]
pub struct EncryptedGroupMessage {
    pub message_id: String,
    pub group_id: String,
    pub sender_peer_id: String,
    pub sender_identity_key: String,
    pub ciphertext: String,
    pub session_id: String,
    pub message_index: u32,
    /// Milliseconds since the Unix epoch.
    pub timestamp: i64,
}

/// Reason for a group rekey.
#[derive(Debug, Clone, Copy, PartialEq, Eq, Structural)]
pub enum RekeyReason {
    MemberAdded,
    MemberRemoved,
    ScheduledRotation,
    Manual,
}

/// Group session rekey message.
#[derive(Debug, Clone)]
pub struct GroupRekey {
    pub group_id: String,
    pub new_session_id: String,
    /// The fresh group session key, encrypted per member.
    pub encrypted_session_key: String,
    pub reason: RekeyReason,
}

/// Delivery acknowledgment.
#[derive(Debug, Clone)]
pub struct DeliveryAck {
    pub message_id: String,
    pub status: DeliveryAckStatus,
}

#[derive(Debug, Clone, Copy, PartialEq, Eq, Structural)]
pub enum DeliveryAckStatus {
    Delivered,
    Read,
    Failed,
}

/// Delivery status of a stored message.
#[derive(Debug, Clone, Copy, PartialEq, Eq, Structural)]
pub enum DeliveryStatus {
    Sending,
    Delivered,
    Read,
    Failed,
}

// ── Stored types ───────────────────────────────────────────────

/// Conversation type.
#[derive(Debug, Clone, Copy, PartialEq, Eq, Structural)]
pub enum ConversationType {
    Direct,
    Group,
}

/// A stored message in a conversation.
#[derive(Debug, Clone)]
pub struct StoredMessage {
    pub id: String,
    pub sender_peer_id: String,
    pub content: ChatMessageContent,
    /// Milliseconds since the Unix epoch.
    pub timestamp: i64,
    pub delivery_status: DeliveryStatus,
    pub is_outgoing: bool,
}

pub struct StoredMessageModel {
    pub id: Seq<char>,
    pub sender_peer_id: Seq<char>,
    pub content: ContentModel,
    pub timestamp: int,
    pub delivery_status: DeliveryStatus,
    pub is_outgoing: bool,
}

impl View for StoredMessage {
    type V = StoredMessageModel;

    open spec fn view(&self) -> StoredMessageModel {
        StoredMessageModel {
            id: self.id@,
            sender_peer_id: self.sender_peer_id@,
            content: self.content@,
            timestamp: self.timestamp as int,
            delivery_status: self.delivery_status,
            is_outgoing: self.is_outgoing,
        }
    }
}

/// Summary of a conversation for listing.
#[derive(Debug, Clone)]
pub struct ConversationSummary {
    pub id: String,
    pub conversation_type: ConversationType,
    pub display_name: String,
    pub last_message: Option<String>,
    pub last_message_at: Option<i64>,
    pub unread_count: u32,
    pub members: Option<Vec<String>>,
}

pub struct SummaryModel {
    pub id: Seq<char>,
    pub conversation_type: ConversationType,
    pub display_name: Seq<char>,
    pub last_message: Option<Seq<char>>,
    pub last_message_at: Option<int>,
    pub unread_count: u32,
    pub members: Option<Seq<Seq<char>>>,
}

impl View for ConversationSummary {
    type V = SummaryModel;

    open spec fn view(&self) -> SummaryModel {
        SummaryModel {
            id: self.id@,
            conversation_type: self.conversation_type,
            display_name: self.display_name@,
            last_message: match self.last_message {
                Some(ref m) => Some(m@),
                None => None,
            },
            last_message_at: match self.last_message_at {
                Some(t) => Some(t as int),
                None => None,
            },
            unread_count: self.unread_count,
            members: match self.members {
                Some(ref m) => Some(Seq::new(m@.len(), |i: int| m@[i]@)),
                None => None,
            },
        }
    }
}

/// Group metadata.
#[derive(Debug, Clone)]
pub struct GroupInfo {
    pub group_id: String,
    pub group_name: String,
    pub creator_peer_id: String,
    pub members: Vec<GroupMemberInfo>,
    /// Milliseconds since the Unix epoch.
    pub created_at: i64,
}

/// Chat identity info for the frontend.
#[derive(Debug, Clone)]
pub struct ChatIdentityInfo {
    pub peer_id: String,
    pub identity_key: String,
    pub signing_key: String,
    pub cert_fingerprint: String,
}

/// Safety number info.
#[derive(Debug, Clone)]
pub struct SafetyNumberInfo {
    pub peer_id: String,
    pub safety_number: String,
    pub groups: Vec<String>,
    pub verified: bool,
}

/// Chat server status.
#[derive(Debug, Clone)]
pub struct ChatServerStatus {
    pub running: bool,
    pub port: u16,
    pub total_unread: u32,
    pub conversation_count: u32,
}

/// One outbound wire payload, as the delivery queue carries it.  A host
/// serialises it to JSON when the HTTP attempt is made.
#[derive(Debug, Clone)]
pub enum WirePayload {
    Message(EncryptedChatMessage),
    GroupMessage(EncryptedGroupMessage),
    Invite(GroupInvite),
    Rekey(GroupRekey),
    Ack(DeliveryAck),
}

pub struct EncryptedChatMessageModel {
    pub message_id: Seq<char>,
    pub sender_peer_id: Seq<char>,
    pub sender_identity_key: Seq<char>,
    pub message_type: OlmMessageType,
    pub ciphertext: Seq<char>,
    pub timestamp: int,
}

impl View for EncryptedChatMessage {
    type V = EncryptedChatMessageModel;

    open spec fn view(&self) -> EncryptedChatMessageModel {
        EncryptedChatMessageModel {
            message_id: self.message_id@,
            sender_peer_id: self.sender_peer_id@,
            sender_identity_key: self.sender_identity_key@,
            message_type: self.message_type,
            ciphertext: self.ciphertext@,
            timestamp: self.timestamp as int,
        }
    }
}

pub struct EncryptedGroupMessageModel {
    pub message_id: Seq<char>,
    pub group_id: Seq<char>,
    pub sender_peer_id: Seq<char>,
    pub sender_identity_key: Seq<char>,
    pub ciphertext: Seq<char>,
    pub session_id: Seq<char>,
    pub message_index: u32,
    pub timestamp: int,
}

impl View for EncryptedGroupMessage {
    type V = EncryptedGroupMessageModel;

    open spec fn view(&self) -> EncryptedGroupMessageModel {
        EncryptedGroupMessageModel {
            message_id: self.message_id@,
            group_id: self.group_id@,
            sender_peer_id: self.sender_peer_id@,
            sender_identity_key: self.sender_identity_key@,
            ciphertext: self.ciphertext@,
            session_id: self.session_id@,
            message_index: self.message_index,
            timestamp: self.timestamp as int,
        }
    }
}

pub struct GroupMemberInfoModel {
    pub peer_id: Seq<char>,
    pub identity_key: Seq<char>,
}

impl View for GroupMemberInfo {
    type V = GroupMemberInfoModel;

    open spec fn view(&self) -> GroupMemberInfoModel {
        GroupMemberInfoModel { peer_id: self.peer_id@, identity_key: self.identity_key@ }
    }
}

pub struct GroupInviteModel {
    pub group_id: Seq<char>,
    pub group_name: Seq<char>,
    pub creator_peer_id: Seq<char>,
    pub members: Seq<GroupMemberInfoModel>,
    pub encrypted_session_key: Seq<char>,
}

impl View for GroupInvite {
    type V = GroupInviteModel;

    open spec fn view(&self) -> GroupInviteModel {
        GroupInviteModel {
            group_id: self.group_id@,
            group_name: self.group_name@,
            creator_peer_id: self.creator_peer_id@,
            members: Seq::new(self.members@.len(), |i: int| self.members@[i]@),
            encrypted_session_key: self.encrypted_session_key@,
        }
    }
}

pub struct GroupRekeyModel {
    pub group_id: Seq<char>,
    pub new_session_id: Seq<char>,
    pub encrypted_session_key: Seq<char>,
    pub reason: RekeyReason,
}

impl View for GroupRekey {
    type V = GroupRekeyModel;

    open spec fn view(&self) -> GroupRekeyModel {
        GroupRekeyModel {
            group_id: self.group_id@,
            new_session_id: self.new_session_id@,
            encrypted_session_key: self.encrypted_session_key@,
            reason: self.reason,
        }
    }
}

pub struct DeliveryAckModel {
    pub message_id: Seq<char>,
    pub status: DeliveryAckStatus,
}

impl View for DeliveryAck {
    type V = DeliveryAckModel;

    open spec fn view(&self) -> DeliveryAckModel {
        DeliveryAckModel { message_id: self.message_id@, status: self.status }
    }
}

pub enum WirePayloadModel {
    Message(EncryptedChatMessageModel),
    GroupMessage(EncryptedGroupMessageModel),
    Invite(GroupInviteModel),
    Rekey(GroupRekeyModel),
    Ack(DeliveryAckModel),
}

impl View for WirePayload {
    type V = WirePayloadModel;

    open spec fn view(&self) -> WirePayloadModel {
        match self {
            WirePayload::Message(m) => WirePayloadModel::Message(m@),
            WirePayload::GroupMessage(m) => WirePayloadModel::GroupMessage(m@),
            WirePayload::Invite(m) => WirePayloadModel::Invite(m@),
            WirePayload::Rekey(m) => WirePayloadModel::Rekey(m@),
            WirePayload::Ack(m) => WirePayloadModel::Ack(m@),
        }
    }
}

pub struct GroupInfoModel {
    pub group_id: Seq<char>,
    pub group_name: Seq<char>,
    pub creator_peer_id: Seq<char>,
    pub members: Seq<GroupMemberInfoModel>,
    pub created_at: int,
}

impl View for GroupInfo {
    type V = GroupInfoModel;

    open spec fn view(&self) -> GroupInfoModel {
        GroupInfoModel {
            group_id: self.group_id@,
            group_name: self.group_name@,
            creator_peer_id: self.creator_peer_id@,
            members: Seq::new(self.members@.len(), |i: int| self.members@[i]@),
            created_at: self.created_at as int,
        }
    }
}

} // verus!
