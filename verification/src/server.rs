//! The stop request that the daemon listens for.

use vstd::prelude::*;
use vstd::utf8::{decode_utf8, encode_utf8, valid_utf8};
use crate::text::{chars_of, spells, trim_bounds, trimmed};

verus! {

/// The most bytes that are read of one request.
pub const REQUEST_LIMIT: usize = 1024;

/// `core::str::from_utf8`: where the bytes are valid UTF-8, the text that
/// they encode; nothing where they are not.
#[verifier::external_body]
fn utf8_text(bytes: &[u8]) -> (text: Option<&str>)
    ensures
        match text {
            Some(read) => valid_utf8(bytes@) && encode_utf8(read@) == bytes@,
            None => !valid_utf8(bytes@),
        },
{
    core::str::from_utf8(bytes).ok()
}

/// Whether a request asks the daemon to stop: it is text, and the text is
/// `shutdown` with at most white space around it.
pub open spec fn asks_to_stop(request: Seq<u8>) -> bool {
    valid_utf8(request) && trimmed(decode_utf8(request)) == "shutdown"@
}

/// Whether `request` asks the daemon to stop.
pub fn is_stop_request(request: &[u8]) -> (stop: bool)
    ensures
        stop == asks_to_stop(request@),
{
    broadcast use vstd::utf8::encode_utf8_decode_utf8;

    match utf8_text(request) {
        Some(read) => {
            assert(read@ == decode_utf8(request@));
            let text = chars_of(read);
            let (from, to) = trim_bounds(&text);
            spells(&text, from, to, "shutdown")
        },
        None => false,
    }
}

} // verus!
