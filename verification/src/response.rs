//! What goes back on a served connection: the fixed success status line,
//! then the raw bytes of the resolved file, streamed in bounded chunks. A
//! failed request gets none of it.

use crate::bytes::append_bytes;
use vstd::prelude::*;

verus! {

/// The size of the buffer a streaming loop fills per chunk: 1 KiB.
pub const CHUNK_SIZE: usize = 1024;

/// The bytes of the fixed success status line, the ASCII of
/// `HTTP/1.1 200 OK` followed by two CRLF pairs. No headers follow; the
/// file's bytes come immediately after.
pub open spec fn spec_status_line() -> Seq<u8> {
    seq![72u8, 84, 84, 80, 47, 49, 46, 49, 32, 50, 48, 48, 32, 79, 75, 13, 10, 13, 10]
}

/// The success status line that precedes every served file.
pub fn success_status_line() -> (r: Vec<u8>)
    ensures
        r@ == spec_status_line(),
{
    let mut r: Vec<u8> = Vec::new();
    r.push(72);
    r.push(84);
    r.push(84);
    r.push(80);
    r.push(47);
    r.push(49);
    r.push(46);
    r.push(49);
    r.push(32);
    r.push(50);
    r.push(48);
    r.push(48);
    r.push(32);
    r.push(79);
    r.push(75);
    r.push(13);
    r.push(10);
    r.push(13);
    r.push(10);
    proof {
        assert(r@ =~= spec_status_line());
    }
    r
}

/// A successful response in full: the status line, then the file's bytes,
/// unchanged and in order.
pub open spec fn spec_success_response(file: Seq<u8>) -> Seq<u8> {
    spec_status_line() + file
}

/// Assembles the whole successful response for a file's bytes.
pub fn build_success_response(file: &Vec<u8>) -> (r: Vec<u8>)
    ensures
        r@ == spec_success_response(file@),
{
    let mut r = success_status_line();
    append_bytes(&mut r, file);
    r
}

/// Streaming advances chunk by chunk: after the first `sent` bytes, writing
/// the next `more` extends the stream to exactly the first `sent + more`
/// bytes, so a run of consecutive chunks reproduces the file with nothing
/// lost, repeated, or reordered.
pub proof fn lemma_stream_step(file: Seq<u8>, sent: int, more: int)
    requires
        0 <= sent,
        0 <= more,
        sent + more <= file.len(),
    ensures
        file.take(sent) + file.subrange(sent, sent + more) == file.take(sent + more),
{
    assert(file.take(sent) + file.subrange(sent, sent + more) =~= file.take(sent + more));
}

} // verus!
