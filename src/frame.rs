use vstd::prelude::*;

verus! {

/// A frame as it arrives from a peer's socket.
#[derive(Debug)]
pub enum InboundFrame {
    Text(String),
    Binary(Vec<u8>),
    /// A ping, pong or close frame of the socket itself.
    Control,
}

/// The literal text some peers send to keep a socket open.
pub open spec fn keepalive_literal() -> Seq<char> {
    seq!['p', 'i', 'n', 'g']
}

/// Text that is taken in silently, without decoding: empty, or the literal `ping`.
pub open spec fn is_ignored_text(t: Seq<char>) -> bool {
    t.len() == 0 || t == keepalive_literal()
}

/// Whether `text` is to be decoded as a signal message.
pub fn is_signal_text(text: &str) -> (r: bool)
    ensures
        r == !is_ignored_text(text@),
{
    let n = text.unicode_len();
    if n == 0 {
        return false;
    }
    if n == 4 {
        let a = text.get_char(0);
        let b = text.get_char(1);
        let c = text.get_char(2);
        let d = text.get_char(3);
        if a == 'p' && b == 'i' && c == 'n' && d == 'g' {
            assert(text@ =~= keepalive_literal());
            return false;
        }
    }
    true
}

/// The text of `frame` that is to be decoded as a signal message, if any.
/// Binary and control frames, empty text and the literal `ping` are taken in
/// silently and give nothing.
pub fn signal_text(frame: &InboundFrame) -> (r: Option<&str>)
    ensures
        match frame {
            InboundFrame::Text(t) => if is_ignored_text(t@) {
                r is None
            } else {
                r matches Some(s) && s@ == t@
            },
            _ => r is None,
        },
{
    match frame {
        InboundFrame::Text(t) => {
            if is_signal_text(t.as_str()) {
                Some(t.as_str())
            } else {
                None
            }
        },
        _ => None,
    }
}

} // verus!
