//! Protocol version negotiation.

use vstd::prelude::*;
use vstd::string::StringSliceAdditionalSpecFns;
use vstd::utf8::{decode_utf8, valid_utf8, encode_utf8_valid_utf8, encode_utf8_decode_utf8, valid_utf8_concat};
use crate::bytes::{lit, concat, bytes_eq, utf8_to_string};

verus! {

/// This build's protocol version.
pub const VERSION: &'static str = "0.1.8";

/// Where upgrade instructions are published.
pub const GITHUB_README_URL: &'static str = "https://github.com/mikemiles-dev/rust_chat#readme";

/// Client and server must run the same version.
pub fn versions_compatible(client_version: &str, server_version: &str) -> (r: bool)
    ensures
        r == (client_version@ == server_version@),
{
    let r = bytes_eq(client_version.as_bytes(), server_version.as_bytes());
    proof {
        encode_utf8_decode_utf8(client_version@);
        encode_utf8_decode_utf8(server_version@);
    }
    r
}

/// The text of a mismatch, before decoding.
pub open spec fn mismatch_text(client: Seq<u8>, server: Seq<u8>, url: Seq<u8>) -> Seq<u8> {
    "Version mismatch: client v".spec_bytes() + client + " != server v".spec_bytes() + server
        + ". Please upgrade your binary or Docker image. See: ".spec_bytes() + url
}

/// The notice shown when client and server versions differ; it names both
/// versions and the upgrade instructions.
pub fn version_mismatch_message(client_version: &str, server_version: &str) -> (r: String)
    ensures
        r@ == decode_utf8(
            mismatch_text(
                client_version.spec_bytes(),
                server_version.spec_bytes(),
                GITHUB_README_URL.spec_bytes(),
            ),
        ),
{
    let a = lit("Version mismatch: client v");
    let b = concat(a.as_slice(), client_version.as_bytes());
    let c = concat(b.as_slice(), lit(" != server v").as_slice());
    let d = concat(c.as_slice(), server_version.as_bytes());
    let e = concat(d.as_slice(), lit(". Please upgrade your binary or Docker image. See: ").as_slice());
    let f = concat(e.as_slice(), GITHUB_README_URL.as_bytes());
    proof {
        broadcast use encode_utf8_valid_utf8, valid_utf8_concat;
        assert(valid_utf8(a@));
        assert(valid_utf8(b@));
        assert(valid_utf8(c@));
        assert(valid_utf8(d@));
        assert(valid_utf8(e@));
        assert(valid_utf8(f@));
    }
    match utf8_to_string(f) {
        Some(s) => s,
        None => String::new(),
    }
}

} // verus!
