//! The bot-protocol adapter's data model and normalization: a message
//! event, as the embedding application decodes it off the wire, becomes
//! either a packet for the event's group or nothing.

use vstd::prelude::*;
use vstd::string::StrSliceExecFns;
use vstd::string::StringExecFns;

use crate::cqcode::cq_lex;
use crate::cqcode::cq_to_text;
use crate::cqcode::seg_texts;
use crate::danmaku::Danmaku;
use crate::danmaku::DanmakuPacket;
use crate::danmaku::DanmakuView;
use crate::danmaku::PacketView;
use crate::text::concat_all;
use crate::text::concat_views;
use crate::text::dec_rep_i64;
use crate::text::fmt_i64;
use crate::text::trim_str;
use crate::text::trimmed;

verus! {

/// One message event of the bot protocol, already decoded off the wire.
pub struct MessageEvent {
    /// The event kind; only `"message"` events carry a danmaku.
    pub post_type: String,
    /// The event's timestamp, opaque to the pipeline.
    pub time: i64,
    /// The bot's own identifier, opaque to the pipeline.
    pub self_id: i64,
    /// The chat group the message was posted in.
    pub group_id: Option<i64>,
    /// Who sent it.
    pub sender: Option<Sender>,
    /// What was sent.
    pub message: Option<Message>,
}

/// The sender of a message event.
pub struct Sender {
    /// The sender's numeric identifier.
    pub user_id: i64,
    /// The sender's global display name.
    pub nickname: Option<String>,
    /// The sender's per-group display name.
    pub card: Option<String>,
}

impl Sender {
    /// The displayed name: the per-group card when it is non-empty, else
    /// the nickname when it is non-empty, else the numeric identifier.
    pub open spec fn spec_name(self) -> Seq<char> {
        if self.card matches Some(c) && c@.len() > 0 {
            self.card->0@
        } else if self.nickname matches Some(n) && n@.len() > 0 {
            self.nickname->0@
        } else {
            dec_rep_i64(self.user_id as int)
        }
    }

    /// Picks the sender's displayed name.
    pub fn name(&self) -> (r: String)
        ensures
            r@ == self.spec_name(),
    {
        if let Some(card) = &self.card {
            if !card.as_str().is_empty() {
                return card.clone();
            }
        }
        if let Some(nickname) = &self.nickname {
            if !nickname.as_str().is_empty() {
                return nickname.clone();
            }
        }
        fmt_i64(self.user_id)
    }
}

/// The message body: either one CQ-coded text or a list of segments.
pub enum Message {
    /// A raw text, with CQ codes inline.
    Text(String),
    /// A decoded segment list.
    Segments(Vec<MessageSegment>),
}

/// One decoded message segment.
pub enum MessageSegment {
    /// Plain text.
    Text {
        /// Its content.
        text: String,
    },
    /// A mention of one group member.
    At {
        /// The mentioned member's numeric identifier.
        qq: i64,
        /// The mentioned member's display name, when known.
        name: Option<String>,
    },
    /// Any other segment kind.
    Unknown,
}

impl MessageSegment {
    /// The displayed text of this segment: plain text as it is, a
    /// mention as `@` followed by the name (or the numeric identifier
    /// when the name is missing or empty), anything else as nothing.
    pub open spec fn spec_to_text(self) -> Seq<char> {
        match self {
            MessageSegment::Text { text } => text@,
            MessageSegment::At { qq, name } => {
                if name matches Some(n) && n@.len() > 0 {
                    ("@")@ + name->0@
                } else {
                    ("@")@ + dec_rep_i64(qq as int)
                }
            },
            MessageSegment::Unknown => Seq::empty(),
        }
    }

    /// Renders this segment as the text a viewer should see.
    pub fn to_text(&self) -> (r: String)
        ensures
            r@ == self.spec_to_text(),
    {
        match self {
            MessageSegment::Text { text } => text.clone(),
            MessageSegment::At { qq, name } => {
                if let Some(n) = name {
                    if !n.as_str().is_empty() {
                        return String::from_str("@").concat(n.as_str());
                    }
                }
                String::from_str("@").concat(fmt_i64(*qq).as_str())
            },
            MessageSegment::Unknown => String::new(),
        }
    }
}

/// The displayed texts of a segment list, one per segment.
pub open spec fn segment_texts(segs: Seq<MessageSegment>) -> Seq<Seq<char>> {
    segs.map_values(|s: MessageSegment| s.spec_to_text())
}

/// The displayed texts of a message, one per segment.
pub open spec fn spec_segments(m: Message) -> Seq<Seq<char>> {
    match m {
        Message::Text(t) => seg_texts(cq_lex(t@)),
        Message::Segments(segs) => segment_texts(segs.deep_view()),
    }
}

impl DeepView for MessageSegment {
    type V = MessageSegment;

    open spec fn deep_view(&self) -> MessageSegment {
        *self
    }
}

impl Message {
    /// Splits the message into its displayed texts, in order: a raw text
    /// is lexed for CQ codes, a segment list is rendered segment by
    /// segment.
    pub fn segments(&self) -> (r: Vec<String>)
        ensures
            r.deep_view() =~= spec_segments(*self),
    {
        match self {
            Message::Text(text) => cq_to_text(text.as_str()),
            Message::Segments(segs) => {
                let mut out: Vec<String> = Vec::new();
                let mut i: usize = 0;
                while i < segs.len()
                    invariant
                        0 <= i <= segs@.len(),
                        out.deep_view() =~= segment_texts(segs.deep_view()).take(i as int),
                    decreases segs@.len() - i,
                {
                    let t = segs[i].to_text();
                    out.push(t);
                    proof {
                        let all = segment_texts(segs.deep_view());
                        assert(all.take(i + 1) =~= all.take(i as int).push(all[i as int]));
                    }
                    i = i + 1;
                }
                proof {
                    let all = segment_texts(segs.deep_view());
                    assert(all.take(segs@.len() as int) =~= all);
                }
                out
            },
        }
    }
}

/// The view of an optional packet.
pub open spec fn opt_packet_view(r: Option<DanmakuPacket>) -> Option<PacketView> {
    match r {
        Some(p) => Some(p@),
        None => None,
    }
}

/// The packet a message event normalizes to: only a `"message"` event
/// with a group and a body yields one; its text is the joined, trimmed
/// segment texts, dropped when empty or longer than `max` characters;
/// its group is the decimal form of the group identifier; its sender is
/// the sender's displayed name.
pub open spec fn event_packet(e: MessageEvent, max: nat) -> Option<PacketView> {
    if e.post_type@ != ("message")@ {
        None
    } else if !(e.group_id matches Some(g)) {
        None
    } else if !(e.message matches Some(m)) {
        None
    } else {
        let text = trimmed(concat_views(spec_segments(e.message->0)));
        if text.len() == 0 || text.len() > max {
            None
        } else {
            Some(
                PacketView {
                    group: dec_rep_i64(e.group_id->0 as int),
                    danmaku: DanmakuView {
                        text,
                        color: None,
                        size: None,
                        sender: match e.sender {
                            Some(s) => Some(s.spec_name()),
                            None => None,
                        },
                    },
                },
            )
        }
    }
}

/// Normalizes one decoded message event into a packet, or nothing, as
/// `event_packet` describes it.
pub fn handle_message_event(event: MessageEvent, max_length: usize) -> (r: Option<
    DanmakuPacket,
>)
    ensures
        opt_packet_view(r) == event_packet(event, max_length as nat),
{
    if !event.post_type.eq(&String::from_str("message")) {
        return None;
    }
    let group = match event.group_id {
        Some(g) => g,
        None => {
            return None;
        },
    };
    let message = match event.message {
        Some(m) => m,
        None => {
            return None;
        },
    };
    let parts = message.segments();
    let joined = concat_all(&parts);
    let text = trim_str(joined.as_str());
    if text.as_str().is_empty() || text.as_str().unicode_len() > max_length {
        return None;
    }
    let sender = match event.sender {
        Some(s) => Some(s.name()),
        None => None,
    };
    let danmaku = Danmaku { text, color: None, size: None, sender };
    let packet = DanmakuPacket { group: fmt_i64(group), danmaku };
    Some(packet)
}

} // verus!
