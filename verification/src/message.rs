//! Messages and the members of a group.

use vstd::prelude::*;

use crate::error::optional_text;

verus! {

#[derive(Clone, Copy, Debug, PartialEq, Eq, Structural)]
pub enum MsgType {
    SingleMsg,
    GroupMsg,
}

impl MsgType {
    /// The number that stands for the type in a message.
    pub open spec fn spec_code(self) -> i32 {
        match self {
            MsgType::SingleMsg => 0,
            MsgType::GroupMsg => 1,
        }
    }

    /// The number that stands for the type in a message.
    pub fn code(self) -> (code: i32)
        ensures
            code == self.spec_code(),
            code == (match self {
                MsgType::SingleMsg => 0i32,
                MsgType::GroupMsg => 1i32,
            }),
    {
        match self {
            MsgType::SingleMsg => 0,
            MsgType::GroupMsg => 1,
        }
    }
}

#[derive(Clone, Copy, Debug, PartialEq, Eq, Structural)]
pub enum PlatformType {
    Desktop,
    Mobile,
}

impl PlatformType {
    /// The number that stands for the platform in a message.
    pub open spec fn spec_code(self) -> i32 {
        match self {
            PlatformType::Desktop => 0,
            PlatformType::Mobile => 1,
        }
    }

    /// The number that stands for the platform in a message.
    pub fn code(self) -> (code: i32)
        ensures
            code == self.spec_code(),
            code == (match self {
                PlatformType::Desktop => 0i32,
                PlatformType::Mobile => 1i32,
            }),
    {
        match self {
            PlatformType::Desktop => 0,
            PlatformType::Mobile => 1,
        }
    }
}

/// A message as it lies in the box of one receiver.
///
/// `seq` counts the messages of the receiver, `send_seq` those of the sender.
#[derive(Debug, PartialEq, Eq)]
pub struct Msg {
    pub client_id: String,
    pub server_id: String,
    pub create_time: i64,
    pub send_time: i64,
    pub content_type: i32,
    pub content: Vec<u8>,
    pub sender_id: String,
    pub receiver_id: String,
    pub seq: i64,
    pub send_seq: i64,
    pub msg_type: i32,
    pub is_read: bool,
    pub platform: i32,
    pub group_id: String,
    pub avatar: String,
    pub nickname: String,
    pub related_msg_id: Option<String>,
}

pub struct MsgView {
    pub client_id: Seq<char>,
    pub server_id: Seq<char>,
    pub create_time: i64,
    pub send_time: i64,
    pub content_type: i32,
    pub content: Seq<u8>,
    pub sender_id: Seq<char>,
    pub receiver_id: Seq<char>,
    pub seq: i64,
    pub send_seq: i64,
    pub msg_type: i32,
    pub is_read: bool,
    pub platform: i32,
    pub group_id: Seq<char>,
    pub avatar: Seq<char>,
    pub nickname: Seq<char>,
    pub related_msg_id: Option<Seq<char>>,
}

impl View for Msg {
    type V = MsgView;

    open spec fn view(&self) -> MsgView {
        MsgView {
            client_id: self.client_id@,
            server_id: self.server_id@,
            create_time: self.create_time,
            send_time: self.send_time,
            content_type: self.content_type,
            content: self.content@,
            sender_id: self.sender_id@,
            receiver_id: self.receiver_id@,
            seq: self.seq,
            send_seq: self.send_seq,
            msg_type: self.msg_type,
            is_read: self.is_read,
            platform: self.platform,
            group_id: self.group_id@,
            avatar: self.avatar@,
            nickname: self.nickname@,
            related_msg_id: optional_text(self.related_msg_id),
        }
    }
}

/// What an optional message holds.
pub open spec fn optional_message(message: Option<Msg>) -> Option<MsgView> {
    match message {
        Some(message) => Some(message@),
        None => None,
    }
}

/// What a list of messages holds.
pub open spec fn message_views(messages: Seq<Msg>) -> Seq<MsgView> {
    messages.map_values(|m: Msg| m@)
}

impl Clone for Msg {
    fn clone(&self) -> (copy: Self)
        ensures
            copy@ == self@,
            copy.client_id@ == self.client_id@,
            copy.server_id@ == self.server_id@,
            copy.create_time == self.create_time,
            copy.send_time == self.send_time,
            copy.content_type == self.content_type,
            copy.content@ == self.content@,
            copy.sender_id@ == self.sender_id@,
            copy.receiver_id@ == self.receiver_id@,
            copy.seq == self.seq,
            copy.send_seq == self.send_seq,
            copy.msg_type == self.msg_type,
            copy.is_read == self.is_read,
            copy.platform == self.platform,
            copy.group_id@ == self.group_id@,
            copy.avatar@ == self.avatar@,
            copy.nickname@ == self.nickname@,
            match (copy.related_msg_id, self.related_msg_id) {
                (Some(one), Some(other)) => one@ == other@,
                (None, None) => true,
                _ => false,
            },
    {
        let related_msg_id = match &self.related_msg_id {
            Some(id) => Some(id.clone()),
            None => None,
        };
        let copy = Msg {
            client_id: self.client_id.clone(),
            server_id: self.server_id.clone(),
            create_time: self.create_time,
            send_time: self.send_time,
            content_type: self.content_type,
            content: self.content.clone(),
            sender_id: self.sender_id.clone(),
            receiver_id: self.receiver_id.clone(),
            seq: self.seq,
            send_seq: self.send_seq,
            msg_type: self.msg_type,
            is_read: self.is_read,
            platform: self.platform,
            group_id: self.group_id.clone(),
            avatar: self.avatar.clone(),
            nickname: self.nickname.clone(),
            related_msg_id,
        };
        assert(copy.content@ =~= self.content@);
        copy
    }
}

/// The place of a group member in the count of their messages: the number of
/// the last one, the number up to which numbers are set aside, and whether the
/// latter has just moved.
#[derive(Debug, PartialEq, Eq)]
pub struct GroupMemSeq {
    pub mem_id: String,
    pub cur_seq: i64,
    pub max_seq: i64,
    pub need_update: bool,
}

pub struct GroupMemSeqView {
    pub mem_id: Seq<char>,
    pub cur_seq: i64,
    pub max_seq: i64,
    pub need_update: bool,
}

impl View for GroupMemSeq {
    type V = GroupMemSeqView;

    open spec fn view(&self) -> GroupMemSeqView {
        GroupMemSeqView {
            mem_id: self.mem_id@,
            cur_seq: self.cur_seq,
            max_seq: self.max_seq,
            need_update: self.need_update,
        }
    }
}

/// What a list of members holds.
pub open spec fn member_views(members: Seq<GroupMemSeq>) -> Seq<GroupMemSeqView> {
    members.map_values(|m: GroupMemSeq| m@)
}

impl GroupMemSeq {
    pub fn new(mem_id: String, cur_seq: i64, max_seq: i64, need_update: bool) -> (member: Self)
        ensures
            member@ == (GroupMemSeqView { mem_id: mem_id@, cur_seq, max_seq, need_update }),
            member == (GroupMemSeq { mem_id, cur_seq, max_seq, need_update }),
    {
        GroupMemSeq { mem_id, cur_seq, max_seq, need_update }
    }
}

impl Clone for GroupMemSeq {
    fn clone(&self) -> (copy: Self)
        ensures
            copy@ == self@,
            copy.mem_id@ == self.mem_id@,
            copy.cur_seq == self.cur_seq,
            copy.max_seq == self.max_seq,
            copy.need_update == self.need_update,
    {
        GroupMemSeq {
            mem_id: self.mem_id.clone(),
            cur_seq: self.cur_seq,
            max_seq: self.max_seq,
            need_update: self.need_update,
        }
    }
}

/// A message shows all that it holds, and nothing else.
pub proof fn law_messages_show_what_they_hold(message: Msg)
    ensures
        message@.client_id == message.client_id@,
        message@.server_id == message.server_id@,
        message@.create_time == message.create_time,
        message@.send_time == message.send_time,
        message@.content_type == message.content_type,
        message@.content == message.content@,
        message@.sender_id == message.sender_id@,
        message@.receiver_id == message.receiver_id@,
        message@.seq == message.seq,
        message@.send_seq == message.send_seq,
        message@.msg_type == message.msg_type,
        message@.is_read == message.is_read,
        message@.platform == message.platform,
        message@.group_id == message.group_id@,
        message@.avatar == message.avatar@,
        message@.nickname == message.nickname@,
        match (message@.related_msg_id, message.related_msg_id) {
            (Some(shown), Some(held)) => shown == held@,
            (None, None) => true,
            _ => false,
        },
{
}

/// A list of messages shows each of them in its place, and an optional one shows
/// whether it is there.
pub proof fn law_lists_show_every_message(messages: Seq<Msg>, message: Msg)
    ensures
        message_views(messages).len() == messages.len(),
        forall|i: int|
            0 <= i < messages.len() ==> #[trigger] message_views(messages)[i] == messages[i]@,
        optional_message(Some(message)) == Some(message@),
        optional_message(None) is None,
{
}

/// A member shows all that it holds, alone and in a list.
pub proof fn law_members_show_what_they_hold(members: Seq<GroupMemSeq>, i: int)
    requires
        0 <= i < members.len(),
    ensures
        member_views(members).len() == members.len(),
        member_views(members)[i].mem_id == members[i].mem_id@,
        member_views(members)[i].cur_seq == members[i].cur_seq,
        member_views(members)[i].max_seq == members[i].max_seq,
        member_views(members)[i].need_update == members[i].need_update,
{
}

} // verus!
