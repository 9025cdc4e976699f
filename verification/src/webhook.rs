//! The webhook adapter's logic: answering the signature challenge and
//! normalizing a dispatched chat message into a packet. Wire parsing is
//! the embedding application's business.

use vstd::prelude::*;
use vstd::string::StrSliceExecFns;
use vstd::string::StringExecFns;
use vstd::string::StringSliceAdditionalSpecFns;

use ed25519_dalek::ed25519::signature::SignerMut;

use crate::danmaku::Danmaku;
use crate::danmaku::DanmakuPacket;
use crate::danmaku::DanmakuView;
use crate::danmaku::PacketView;
use crate::danmaku::opt_str_view;
use crate::onebot::opt_packet_view;
use crate::text::hex_rep;
use crate::text::to_hex;
use crate::text::trim_str;
use crate::text::trimmed;

verus! {

/// A wire tag: the protocol marks each payload kind with a numeric `op`
/// field, and a value stands for the kind `V` exactly when it equals it.
pub struct Op<const V: u8>;

impl<const V: u8> Op<V> {
    /// Whether a decoded tag value announces this payload kind.
    pub fn matches(tag: u8) -> (r: bool)
        ensures
            r == (tag == V),
    {
        tag == V
    }
}

/// What ed25519 signing returns for this seed and message. RFC 8032
/// signing is deterministic, so the signature depends on the two alone.
pub uninterp spec fn ed25519_sig_of(seed: Seq<u8>, msg: Seq<u8>) -> Seq<u8>;

/// Relies on `ed25519_dalek::SigningKey`: signs the message with the key
/// expanded from the 32-byte seed; an ed25519 signature is 64 bytes.
#[verifier::external_body]
fn ed25519_sign(seed: &Vec<u8>, msg: &Vec<u8>) -> (r: Vec<u8>)
    requires
        seed@.len() == 32,
    ensures
        r@ == ed25519_sig_of(seed@, msg@),
        r@.len() == 64,
{
    let secret: ed25519_dalek::SecretKey = seed.clone().try_into().unwrap();
    let mut signer = ed25519_dalek::SigningKey::from(secret);
    let signature = signer.sign(msg.as_slice());
    signature.to_bytes().to_vec()
}

/// The secret's bytes repeated out to the 32-byte seed length.
pub open spec fn cycled_seed(bs: Seq<u8>) -> Seq<u8> {
    Seq::new(32, |i: int| bs[i % bs.len() as int])
}

/// Expands a secret to the 32-byte seed by cycling its bytes.
pub fn expand_seed(secret: &Vec<u8>) -> (r: Vec<u8>)
    requires
        secret@.len() >= 1,
    ensures
        r@ =~= cycled_seed(secret@),
{
    let mut out: Vec<u8> = Vec::new();
    let mut i: usize = 0;
    while i < 32
        invariant
            secret@.len() >= 1,
            0 <= i <= 32,
            out@.len() == i,
            forall|k: int| 0 <= k < i ==> out@[k] == secret@[k % secret@.len() as int],
        decreases 32 - i,
    {
        let b = secret[i % secret.len()];
        out.push(b);
        i = i + 1;
    }
    out
}

/// The hex signature that answers a challenge: the secret is cycled out
/// to the seed, and the concatenation of the timestamp and the token,
/// in its UTF-8 form, is signed.
pub open spec fn challenge_signature(
    secret: Seq<u8>,
    event_ts: Seq<char>,
    plain_token: Seq<char>,
) -> Seq<char> {
    hex_rep(
        ed25519_sig_of(cycled_seed(secret), vstd::utf8::encode_utf8(event_ts + plain_token)),
    )
}

/// Answers the webhook's signature challenge: signs the timestamp
/// followed by the plain token with the key expanded from the secret,
/// and renders the signature in hex.
pub fn sign_challenge(secret: &str, event_ts: &str, plain_token: &str) -> (r: String)
    requires
        secret@.len() >= 1,
    ensures
        r@ == challenge_signature(secret.spec_bytes(), event_ts@, plain_token@),
{
    let seed_bytes = secret.as_bytes_vec();
    proof {
        assert(seed_bytes@.len() >= 1) by {
            assert(vstd::utf8::encode_scalar(secret@[0] as u32).len() >= 1);
        }
    }
    let seed = expand_seed(&seed_bytes);
    let mut msg = event_ts.to_owned();
    msg.append(plain_token);
    let msg_bytes = msg.as_str().as_bytes_vec();
    let signature = ed25519_sign(&seed, &msg_bytes);
    to_hex(&signature)
}

/// Whether `c` is an ASCII decimal digit.
pub open spec fn is_digit(c: char) -> bool {
    '0' <= c && c <= '9'
}

/// The number of leading digits of `s`.
pub open spec fn digit_scan(s: Seq<char>) -> nat
    decreases s.len(),
{
    if s.len() == 0 {
        0
    } else if is_digit(s[0]) {
        1 + digit_scan(s.drop_first())
    } else {
        0
    }
}

proof fn lemma_digit_scan(s: Seq<char>, j: int)
    requires
        0 <= j <= s.len(),
        forall|k: int| 0 <= k < j ==> is_digit(s[k]),
        j < s.len() ==> !is_digit(s[j]),
    ensures
        digit_scan(s) == j,
    decreases j,
{
    if j > 0 {
        let t = s.drop_first();
        assert(forall|k: int| 0 <= k < j - 1 ==> t[k] == s[k + 1] && is_digit(s[k + 1]));
        lemma_digit_scan(t, j - 1);
    }
}

/// Where a leading mention ends: a `<@` or `<@!` prefix, then at least
/// one digit, then `>`; `None` when the text does not begin so.
pub open spec fn mention_end(s: Seq<char>) -> Option<int> {
    if s.len() >= 2 && s[0] == '<' && s[1] == '@' {
        let start: int = if s.len() >= 3 && s[2] == '!' {
            3
        } else {
            2
        };
        let d = digit_scan(s.skip(start)) as int;
        if d >= 1 && start + d < s.len() && s[start + d] == '>' {
            Some(start + d + 1)
        } else {
            None
        }
    } else {
        None
    }
}

/// `s` with a leading member mention removed, when there is one.
pub open spec fn strip_mention(s: Seq<char>) -> Seq<char> {
    match mention_end(s) {
        Some(e) => s.skip(e),
        None => s,
    }
}

/// Removes a leading member mention (`<@123>` or `<@!123>`), when the
/// text begins with one.
pub fn strip_mention_str(s: &str) -> (r: String)
    ensures
        r@ == strip_mention(s@),
{
    let n = s.unicode_len();
    if n >= 2 && s.get_char(0) == '<' && s.get_char(1) == '@' {
        let start: usize = if n >= 3 && s.get_char(2) == '!' {
            3
        } else {
            2
        };
        if start > n {
            return s.to_owned();
        }
        let ghost rest = s@.skip(start as int);
        let mut j: usize = start;
        while j < n && s.get_char(j) >= '0' && s.get_char(j) <= '9'
            invariant
                n == s@.len(),
                start <= j <= n,
                forall|k: int| start <= k < j ==> is_digit(s@[k]),
            decreases n - j,
        {
            j = j + 1;
        }
        proof {
            assert(forall|k: int| 0 <= k < j - start ==> rest[k] == s@[k + start] && is_digit(
                s@[k + start],
            ));
            if j < n {
                assert(rest[j - start] == s@[j as int]);
            }
            lemma_digit_scan(rest, j - start);
        }
        if j > start && j < n && s.get_char(j) == '>' {
            let out = s.substring_char(j + 1, n);
            proof {
                assert(s@.subrange(j + 1, n as int) =~= s@.skip(j + 1));
            }
            out.to_owned()
        } else {
            s.to_owned()
        }
    } else {
        s.to_owned()
    }
}

/// The packet a dispatched chat message normalizes to: nothing without a
/// content; otherwise the content with a leading mention removed and
/// trimmed, dropped when empty or longer than `max` characters; the
/// channel is the group and the author's name is the sender.
pub open spec fn webhook_packet(
    content: Option<Seq<char>>,
    channel: Seq<char>,
    author: Seq<char>,
    max: nat,
) -> Option<PacketView> {
    match content {
        None => None,
        Some(c) => {
            let text = trimmed(strip_mention(c));
            if text.len() == 0 || text.len() > max {
                None
            } else {
                Some(
                    PacketView {
                        group: channel,
                        danmaku: DanmakuView {
                            text,
                            color: None,
                            size: None,
                            sender: Some(author),
                        },
                    },
                )
            }
        },
    }
}

/// Normalizes one dispatched chat message into a packet, or nothing, as
/// `webhook_packet` describes it.
pub fn receive_message(
    content: Option<String>,
    channel_id: String,
    author_name: String,
    max_length: usize,
) -> (r: Option<DanmakuPacket>)
    ensures
        opt_packet_view(r) == webhook_packet(
            opt_str_view(content),
            channel_id@,
            author_name@,
            max_length as nat,
        ),
{
    let message = match content {
        Some(c) => c,
        None => {
            return None;
        },
    };
    let stripped = strip_mention_str(message.as_str());
    let text = trim_str(stripped.as_str());
    if text.as_str().is_empty() || text.as_str().unicode_len() > max_length {
        return None;
    }
    let danmaku = Danmaku { text, color: None, size: None, sender: Some(author_name) };
    Some(DanmakuPacket { group: channel_id, danmaku })
}

} // verus!
