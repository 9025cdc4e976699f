//! The normalized message unit and its routing envelope.

use vstd::prelude::*;

verus! {

/// Mathematical view of a [`Danmaku`]: every field as a plain value.
pub struct DanmakuView {
    pub text: Seq<char>,
    pub color: Option<Seq<char>>,
    pub size: Option<u64>,
    pub sender: Option<Seq<char>>,
}

/// Mathematical view of a [`DanmakuPacket`].
pub struct PacketView {
    pub group: Seq<char>,
    pub danmaku: DanmakuView,
}

/// The view of an optional string.
pub open spec fn opt_str_view(o: Option<String>) -> Option<Seq<char>> {
    match o {
        Some(s) => Some(s@),
        None => None,
    }
}

/// A single displayable comment.
///
/// `text` is the displayable content, bounded by the configured maximum
/// character count (counted in Unicode scalar values). `color`, `size` and
/// `sender` are optional display hints, opaque to the pipeline; `size` is
/// carried as raw bits so that the pipeline never interprets it.
pub struct Danmaku {
    pub text: String,
    pub color: Option<String>,
    pub size: Option<u64>,
    pub sender: Option<String>,
}

impl View for Danmaku {
    type V = DanmakuView;

    open spec fn view(&self) -> DanmakuView {
        DanmakuView {
            text: self.text@,
            color: opt_str_view(self.color),
            size: self.size,
            sender: opt_str_view(self.sender),
        }
    }
}

impl DeepView for Danmaku {
    type V = DanmakuView;

    open spec fn deep_view(&self) -> DanmakuView {
        self.view()
    }
}

impl Clone for Danmaku {
    fn clone(&self) -> (r: Self)
        ensures
            r@ == self@,
    {
        Danmaku {
            text: self.text.clone(),
            color: match &self.color {
                Some(c) => Some(c.clone()),
                None => None,
            },
            size: self.size,
            sender: match &self.sender {
                Some(s) => Some(s.clone()),
                None => None,
            },
        }
    }
}

/// Routing envelope: a danmaku tagged with its destination group.
///
/// `group` is an opaque routing key (a room or channel identifier); packets
/// carry no ordering field and are ordered only by arrival at the fan-in
/// buffer.
pub struct DanmakuPacket {
    pub group: String,
    pub danmaku: Danmaku,
}

impl View for DanmakuPacket {
    type V = PacketView;

    open spec fn view(&self) -> PacketView {
        PacketView { group: self.group@, danmaku: self.danmaku@ }
    }
}

impl DeepView for DanmakuPacket {
    type V = PacketView;

    open spec fn deep_view(&self) -> PacketView {
        self.view()
    }
}

impl Clone for DanmakuPacket {
    fn clone(&self) -> (r: Self)
        ensures
            r@ == self@,
    {
        DanmakuPacket { group: self.group.clone(), danmaku: self.danmaku.clone() }
    }
}

} // verus!
