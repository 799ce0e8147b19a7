//! The camera relay: how one JPEG frame is framed as a part of the
//! `multipart/x-mixed-replace; boundary=frame` stream.
use vstd::prelude::*;

use crate::text::{chars_of, dec, lit, push_text, u64_text};

verus! {

/// The bytes of a text whose characters are all below 128.
pub open spec fn ascii_bytes(s: Seq<char>) -> Seq<u8> {
    s.map_values(|c: char| c as u8)
}

/// The part header that announces a frame of `n` bytes.
pub open spec fn mjpeg_part_header(n: nat) -> Seq<char> {
    "--frame\r\nContent-Type: image/jpeg\r\nContent-Length: "@ + dec(n) + "\r\n\r\n"@
}

/// One part of the stream: the header, the frame, and a closing line break.
pub open spec fn mjpeg_chunk(frame: Seq<u8>) -> Seq<u8> {
    ascii_bytes(mjpeg_part_header(frame.len())) + frame + seq![13u8, 10u8]
}

/// Appends the bytes of `s`, a text of ASCII characters.
fn push_ascii(out: &mut Vec<u8>, s: &str)
    ensures
        final(out)@ == old(out)@ + ascii_bytes(s@),
{
    let v = chars_of(s);
    let ghost start = out@;
    let mut i: usize = 0;
    while i < v.len()
        invariant
            0 <= i <= v.len(),
            v@ == s@,
            out@ == start + ascii_bytes(v@.take(i as int)),
        decreases v.len() - i,
    {
        let c = v[i];
        let b: u8 = c as u8;
        out.push(b);
        assert(ascii_bytes(v@.take(i + 1)) =~= ascii_bytes(v@.take(i as int)).push(b));
        i = i + 1;
    }
    assert(v@.take(v@.len() as int) =~= v@);
}

/// Frames one JPEG frame for the multipart stream.
pub fn encode_mjpeg_chunk(frame: &Vec<u8>) -> (chunk: Vec<u8>)
    ensures
        chunk@ == mjpeg_chunk(frame@),
{
    let mut header = lit("--frame\r\nContent-Type: image/jpeg\r\nContent-Length: ");
    let n = u64_text(frame.len() as u64);
    push_text(&mut header, n.as_str());
    push_text(&mut header, "\r\n\r\n");
    let mut chunk: Vec<u8> = Vec::new();
    push_ascii(&mut chunk, header.as_str());
    let mut i: usize = 0;
    let ghost start = chunk@;
    while i < frame.len()
        invariant
            0 <= i <= frame.len(),
            chunk@ == start + frame@.take(i as int),
        decreases frame.len() - i,
    {
        chunk.push(frame[i]);
        assert(frame@.take(i + 1) =~= frame@.take(i as int).push(frame@[i as int]));
        i = i + 1;
    }
    assert(frame@.take(frame@.len() as int) =~= frame@);
    chunk.push(13u8);
    chunk.push(10u8);
    proof {
        assert(header@ == mjpeg_part_header(frame@.len()));
        assert(chunk@ =~= mjpeg_chunk(frame@));
    }
    chunk
}

} // verus!
