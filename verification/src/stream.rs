//! The wire side of the frame stream: the one-time HTTP preamble and
//! the per-frame multipart header that precedes each JPEG body.
//!
//! A connection is served as `multipart/x-mixed-replace`: one preamble,
//! then for every frame a boundary header carrying the frame's exact
//! byte length, the frame bytes, and a blank line. The header text is
//! rendered here and pinned down to the character; pushing bytes onto
//! the socket is left to the caller.

use vstd::prelude::*;
use vstd::string::StringExecFns;

verus! {

/// The decimal digit `d` as a character.
pub open spec fn digit_char(d: int) -> char {
    if d == 0 {
        '0'
    } else if d == 1 {
        '1'
    } else if d == 2 {
        '2'
    } else if d == 3 {
        '3'
    } else if d == 4 {
        '4'
    } else if d == 5 {
        '5'
    } else if d == 6 {
        '6'
    } else if d == 7 {
        '7'
    } else if d == 8 {
        '8'
    } else {
        '9'
    }
}

/// The decimal rendering of `n`, most significant digit first, with no
/// leading zeros (`0` itself renders as "0").
pub open spec fn dec_rep(n: nat) -> Seq<char>
    decreases n,
{
    if n < 10 {
        seq![digit_char(n as int)]
    } else {
        dec_rep(n / 10).push(digit_char((n % 10) as int))
    }
}

/// The status line and headers sent once per accepted connection.
pub open spec fn stream_preamble_seq() -> Seq<char> {
    "HTTP/1.1 200 OK\r\nContent-Type: multipart/x-mixed-replace; boundary=--frame\r\n\r\n"@
}

/// The boundary header sent before a frame of `len` bytes.
pub open spec fn frame_header_seq(len: nat) -> Seq<char> {
    "--frame\r\nContent-Type: image/jpeg\r\nContent-Length: "@ + dec_rep(len) + "\r\n\r\n"@
}

/// The one-character string holding the decimal digit `d`.
fn digit_str(d: usize) -> (s: &'static str)
    requires
        d < 10,
    ensures
        s@ == seq![digit_char(d as int)],
{
    let s: &'static str = if d == 0 {
        "0"
    } else if d == 1 {
        "1"
    } else if d == 2 {
        "2"
    } else if d == 3 {
        "3"
    } else if d == 4 {
        "4"
    } else if d == 5 {
        "5"
    } else if d == 6 {
        "6"
    } else if d == 7 {
        "7"
    } else if d == 8 {
        "8"
    } else {
        "9"
    };
    proof {
        reveal_strlit("0");
        reveal_strlit("1");
        reveal_strlit("2");
        reveal_strlit("3");
        reveal_strlit("4");
        reveal_strlit("5");
        reveal_strlit("6");
        reveal_strlit("7");
        reveal_strlit("8");
        reveal_strlit("9");
        assert(s@ =~= seq![digit_char(d as int)]);
    }
    s
}

/// Renders `n` in decimal.
pub fn dec_string(n: usize) -> (s: String)
    ensures
        s@ == dec_rep(n as nat),
    decreases n,
{
    if n < 10 {
        String::from_str(digit_str(n))
    } else {
        let mut s = dec_string(n / 10);
        s.append(digit_str(n % 10));
        proof {
            assert(s@ =~= dec_rep(n as nat));
        }
        s
    }
}

/// Renders the connection preamble: the status line and the
/// `multipart/x-mixed-replace` content type.
pub fn stream_preamble() -> (s: String)
    ensures
        s@ == stream_preamble_seq(),
{
    String::from_str(
        "HTTP/1.1 200 OK\r\nContent-Type: multipart/x-mixed-replace; boundary=--frame\r\n\r\n",
    )
}

/// Renders the boundary header for a frame of `len` bytes.
pub fn frame_header(len: usize) -> (h: String)
    ensures
        h@ == frame_header_seq(len as nat),
{
    let mut h = String::from_str("--frame\r\nContent-Type: image/jpeg\r\nContent-Length: ");
    let d = dec_string(len);
    h.append(d.as_str());
    h.append("\r\n\r\n");
    proof {
        assert(h@ =~= frame_header_seq(len as nat));
    }
    h
}

/// Per-connection header state. The boundary header is re-rendered only
/// when the frame length changes, as consecutive camera frames mostly
/// share a length; the header handed out is nevertheless always exactly
/// the one for the frame at hand.
pub struct StreamPacketizer {
    header: String,
    cur_len: usize,
}

impl StreamPacketizer {
    /// The frame length the cached header was rendered for.
    pub closed spec fn spec_cur_len(self) -> int {
        self.cur_len as int
    }

    /// The cached header, when one has been rendered, is the header
    /// for the last frame length seen.
    pub closed spec fn wf(self) -> bool {
        self.header@.len() != 0 ==> self.header@ == frame_header_seq(self.cur_len as nat)
    }

    /// Fresh state for one accepted connection: no header rendered yet.
    pub fn new() -> (p: StreamPacketizer)
        ensures
            p.wf(),
    {
        StreamPacketizer { header: String::new(), cur_len: 0 }
    }

    /// The boundary header to send before a frame of `frame_len`
    /// bytes, re-rendered only if the length changed since the last
    /// frame.
    pub fn next_header(&mut self, frame_len: usize) -> (h: String)
        requires
            old(self).wf(),
        ensures
            final(self).wf(),
            h@ == frame_header_seq(frame_len as nat),
            final(self).spec_cur_len() == frame_len,
    {
        if frame_len != self.cur_len || self.header.as_str().is_empty() {
            self.header = frame_header(frame_len);
            self.cur_len = frame_len;
        }
        self.header.clone()
    }
}

} // verus!
