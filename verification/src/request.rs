//! Reading a request: the first line of whatever bytes arrived before the
//! read deadline, the path token between its first and second space, and the
//! resolution of that token against the route table.
//!
//! The handler serves exactly one request. Whatever the connection sent —
//! everything, something, or nothing at all — is handed here as a byte
//! buffer, and the outcome below is all that decides what goes back.

use crate::bytes::{clone_bytes, copy_range, find_byte};
use crate::errors::RequestError;
use crate::routes::RouteTable;
use vstd::prelude::*;

verus! {

/// ASCII line feed: ends the request line.
pub const NEWLINE: u8 = 10;

/// ASCII carriage return: stripped from the end of a line that a line feed
/// closed.
pub const CARRIAGE_RETURN: u8 = 13;

/// ASCII space: separates the fields of the request line.
pub const SPACE: u8 = 32;

/// The position of the first `x` in `b`, if any.
pub open spec fn first_index(b: Seq<u8>, x: u8) -> Option<int>
    decreases b.len(),
{
    if b.len() == 0 {
        None
    } else if b[0] == x {
        Some(0)
    } else {
        match first_index(b.skip(1), x) {
            None => None,
            Some(i) => Some(i + 1),
        }
    }
}

/// What `first_index` returns: the position of the first occurrence, or
/// nothing when the byte does not occur.
pub proof fn lemma_first_index(b: Seq<u8>, x: u8)
    ensures
        match first_index(b, x) {
            Some(i) => 0 <= i < b.len() && b[i] == x && forall|k: int| 0 <= k < i ==> b[k] != x,
            None => forall|k: int| 0 <= k < b.len() ==> b[k] != x,
        },
    decreases b.len(),
{
    if b.len() > 0 && b[0] != x {
        lemma_first_index(b.skip(1), x);
        assert forall|k: int| 1 <= k < b.len() implies b[k] == b.skip(1)[k - 1] by {}
        match first_index(b.skip(1), x) {
            None => {},
            Some(i) => {
                assert(b[i + 1] == b.skip(1)[i]);
                assert forall|k: int| 0 <= k < i + 1 implies b[k] != x by {
                    if k >= 1 {
                        assert(b[k] == b.skip(1)[k - 1]);
                    }
                }
            },
        }
    }
}

/// A witness pins `first_index` down: a position holding `x` with none
/// before it is the position `first_index` names.
pub proof fn lemma_first_index_from_witness(b: Seq<u8>, x: u8, i: int)
    requires
        0 <= i < b.len(),
        b[i] == x,
        forall|k: int| 0 <= k < i ==> b[k] != x,
    ensures
        first_index(b, x) == Some(i),
{
    lemma_first_index(b, x);
    match first_index(b, x) {
        None => {
            assert(false);
        },
        Some(j) => {
            if j < i {
                assert(b[j] != x);
            } else if i < j {
                assert(b[i] != x);
            }
        },
    }
}

/// A byte that occurs nowhere has no first position.
pub proof fn lemma_first_index_no_witness(b: Seq<u8>, x: u8)
    requires
        forall|k: int| 0 <= k < b.len() ==> b[k] != x,
    ensures
        first_index(b, x) is None,
{
    lemma_first_index(b, x);
    match first_index(b, x) {
        None => {},
        Some(j) => {
            assert(b[j] != x);
        },
    }
}

/// The first line of a request: the bytes before the first line feed, with
/// one trailing carriage return stripped; without a line feed, the whole
/// buffer as it stands.
pub open spec fn spec_first_line(b: Seq<u8>) -> Seq<u8> {
    match first_index(b, NEWLINE) {
        Some(i) => {
            let line = b.take(i);
            if line.len() > 0 && line.last() == CARRIAGE_RETURN {
                line.drop_last()
            } else {
                line
            }
        },
        None => b,
    }
}

/// The path token of a request: the field of its first line between the
/// first and the second space. A request with no bytes, or whose first line
/// does not hold two spaces, has none.
pub open spec fn spec_request_path(b: Seq<u8>) -> Option<Seq<u8>> {
    if b.len() == 0 {
        None
    } else {
        let line = spec_first_line(b);
        match first_index(line, SPACE) {
            None => None,
            Some(i) => {
                let rest = line.skip(i + 1);
                match first_index(rest, SPACE) {
                    None => None,
                    Some(j) => Some(rest.take(j)),
                }
            },
        }
    }
}

/// Extracts the path token of the request, or rejects the request as
/// malformed when it has none.
pub fn request_path(buf: &Vec<u8>) -> (r: Result<Vec<u8>, RequestError>)
    ensures
        match r {
            Ok(p) => spec_request_path(buf@) == Some(p@),
            Err(e) => e == RequestError::MalformedRequest && spec_request_path(buf@) is None,
        },
{
    if buf.len() == 0 {
        return Err(RequestError::MalformedRequest);
    }
    let line_end: usize = match find_byte(buf, 0, buf.len(), NEWLINE) {
        Some(i) => {
            proof {
                lemma_first_index_from_witness(buf@, NEWLINE, i as int);
            }
            if i > 0 && buf[i - 1] == CARRIAGE_RETURN {
                proof {
                    assert(buf@.take(i as int).last() == buf@[i - 1]);
                    assert(buf@.take(i as int).drop_last() =~= buf@.take(i - 1));
                }
                i - 1
            } else {
                proof {
                    if i > 0 {
                        assert(buf@.take(i as int).last() == buf@[i - 1]);
                    }
                }
                i
            }
        },
        None => {
            proof {
                lemma_first_index_no_witness(buf@, NEWLINE);
                assert(buf@.take(buf@.len() as int) =~= buf@);
            }
            buf.len()
        },
    };
    let ghost line = spec_first_line(buf@);
    proof {
        assert(line =~= buf@.take(line_end as int));
    }
    let sp1: usize = match find_byte(buf, 0, line_end, SPACE) {
        None => {
            proof {
                assert forall|k: int| 0 <= k < line.len() implies line[k] != SPACE by {
                    assert(line[k] == buf@[k]);
                }
                lemma_first_index_no_witness(line, SPACE);
            }
            return Err(RequestError::MalformedRequest);
        },
        Some(i) => {
            proof {
                assert(line[i as int] == buf@[i as int]);
                assert forall|k: int| 0 <= k < i implies line[k] != SPACE by {
                    assert(line[k] == buf@[k]);
                }
                lemma_first_index_from_witness(line, SPACE, i as int);
            }
            i
        },
    };
    let ghost rest = line.skip(sp1 + 1);
    proof {
        assert forall|k: int| 0 <= k < rest.len() implies rest[k] == buf@[k + sp1 + 1] by {
            assert(rest[k] == line[k + sp1 + 1]);
        }
    }
    let sp2: usize = match find_byte(buf, sp1 + 1, line_end, SPACE) {
        None => {
            proof {
                assert forall|k: int| 0 <= k < rest.len() implies rest[k] != SPACE by {
                    assert(rest[k] == buf@[k + sp1 + 1]);
                }
                lemma_first_index_no_witness(rest, SPACE);
            }
            return Err(RequestError::MalformedRequest);
        },
        Some(j) => {
            proof {
                assert(rest[j - sp1 - 1] == buf@[j as int]);
                assert forall|k: int| 0 <= k < j - sp1 - 1 implies rest[k] != SPACE by {
                    assert(rest[k] == buf@[k + sp1 + 1]);
                }
                lemma_first_index_from_witness(rest, SPACE, j - sp1 - 1);
            }
            j
        },
    };
    let path = copy_range(buf, sp1 + 1, sp2);
    proof {
        assert(rest.take(sp2 - sp1 - 1) =~= buf@.subrange(sp1 + 1, sp2 as int));
    }
    Ok(path)
}

/// The outcome a request determines: the local path whose bytes should
/// follow the success status line, or the error that leaves the connection
/// without one.
pub open spec fn spec_handle(t: RouteTable, b: Seq<u8>) -> Result<Seq<u8>, RequestError> {
    match spec_request_path(b) {
        None => Err(RequestError::MalformedRequest),
        Some(p) => match t.spec_lookup(p) {
            None => Err(RequestError::NotFound),
            Some(l) => Ok(l),
        },
    }
}

/// Serves one request against the table: parses the first line, resolves
/// the path token verbatim, and returns the local path to stream back — or
/// the error under which the connection is abandoned.
pub fn handle_request(table: &RouteTable, buf: &Vec<u8>) -> (r: Result<Vec<u8>, RequestError>)
    ensures
        match r {
            Ok(local) => spec_handle(*table, buf@) == Ok::<Seq<u8>, RequestError>(local@),
            Err(e) => spec_handle(*table, buf@) == Err::<Seq<u8>, RequestError>(e),
        },
{
    let path = match request_path(buf) {
        Ok(p) => p,
        Err(e) => {
            return Err(e);
        },
    };
    match table.lookup(&path) {
        Some(local) => Ok(clone_bytes(local)),
        None => Err(RequestError::NotFound),
    }
}

/// An unregistered path is never served: when the request line parses to a
/// path the table does not hold, the outcome is `NotFound`, and no success
/// status line is owed.
pub proof fn lemma_unregistered_path_not_served(t: RouteTable, b: Seq<u8>, p: Seq<u8>)
    requires
        spec_request_path(b) == Some(p),
        !t.contains_path(p),
    ensures
        spec_handle(t, b) == Err::<Seq<u8>, RequestError>(RequestError::NotFound),
{
}

/// A request line without two spaces — in particular one holding a single
/// token — is rejected as malformed, whatever the table holds.
pub proof fn lemma_single_token_malformed(t: RouteTable, b: Seq<u8>)
    requires
        first_index(spec_first_line(b), SPACE) is None,
    ensures
        spec_handle(t, b) == Err::<Seq<u8>, RequestError>(RequestError::MalformedRequest),
{
}

/// A connection that sent nothing before the deadline is still decided, not
/// hung: its empty buffer is malformed.
pub proof fn lemma_empty_request_malformed(t: RouteTable)
    ensures
        spec_handle(t, Seq::empty()) == Err::<Seq<u8>, RequestError>(RequestError::MalformedRequest),
{
}

} // verus!
