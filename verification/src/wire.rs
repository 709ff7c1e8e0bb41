//! Wire messages: a packed batch is Brotli-compressed into one message, and
//! a received message is decompressed and decoded back into samples.
//!
//! The compressor runs with quality 4 and window 24, writing through a
//! buffer of `BUFFER_LENGTH` bytes.

use std::io::Write;

use vstd::prelude::*;

use crate::codec::{decode_packed, decode_spec, pack_batch, pack_spec, to_ints};
use crate::sample::{in_unit_range, BUFFER_LENGTH};

verus! {

/// The bytes that the Brotli compressor (quality 4, window 24) produces for
/// an input: they depend on the input alone.
pub uninterp spec fn brotli_of(s: Seq<u8>) -> Seq<u8>;

/// Relies on brotli::CompressorWriter: with fixed parameters the compressed
/// stream is a function of the input bytes alone.
#[verifier::external_body]
fn brotli_compress(data: &Vec<u8>) -> (r: Vec<u8>)
    ensures
        r@ == brotli_of(data@),
{
    let mut writer = brotli::CompressorWriter::new(Vec::new(), BUFFER_LENGTH, 4, 24);
    writer.write_all(data).expect("write into a Vec cannot fail");
    writer.into_inner()
}

/// Relies on brotli::DecompressorWriter: decompressing a compressed stream
/// returns exactly the bytes that were compressed; a malformed stream is
/// reported as an error.
#[verifier::external_body]
fn brotli_decompress(data: &Vec<u8>) -> (r: Option<Vec<u8>>)
    ensures
        r is None ==> (forall|s: Seq<u8>| data@ != #[trigger] brotli_of(s)),
        r is Some ==> (forall|s: Seq<u8>| data@ == #[trigger] brotli_of(s) ==> r.unwrap()@ == s),
{
    let mut writer = brotli::DecompressorWriter::new(Vec::new(), BUFFER_LENGTH);
    if writer.write_all(data).is_err() {
        return None;
    }
    writer.into_inner().ok()
}

/// Builds the wire message of one batch: the packed tokens, compressed.
/// An empty batch produces no message.
pub fn make_wire_message(batch: &Vec<i64>, quality: u8) -> (r: Option<Vec<u8>>)
    requires
        1 <= quality <= 9,
    ensures
        batch@.len() == 0 ==> r is None,
        batch@.len() > 0 ==> (r matches Some(msg) && msg@ == brotli_of(
            pack_spec(batch@, quality as int),
        )),
{
    if batch.len() == 0 {
        return None;
    }
    let packed = pack_batch(batch, quality);
    Some(brotli_compress(&packed))
}

/// One tick of the packer: drains everything queued in the flow and turns
/// it into one wire message; a tick with nothing queued sends nothing.
pub fn organize_tick(flow: &mut Vec<i64>, quality: u8) -> (r: Option<Vec<u8>>)
    requires
        1 <= quality <= 9,
    ensures
        final(flow)@ =~= Seq::<i64>::empty(),
        old(flow)@.len() == 0 ==> r is None,
        old(flow)@.len() > 0 ==> (r matches Some(msg) && msg@ == brotli_of(
            pack_spec(old(flow)@, quality as int),
        )),
{
    let batch = flow.split_off(0);
    proof {
        assert(batch@ =~= old(flow)@);
        assert(flow@ =~= Seq::<i64>::empty());
    }
    make_wire_message(&batch, quality)
}

/// Decompresses and decodes one wire message. For a message that was built
/// from a packed batch, the result is exactly that batch's decoded samples;
/// a message that does not decompress gives `None`.
pub fn decode_wire_message(data: &Vec<u8>) -> (r: Option<Vec<i64>>)
    ensures
        forall|s: Seq<u8>|
            data@ == #[trigger] brotli_of(s) ==> (r matches Some(samples) && to_ints(samples@)
                == decode_spec(s)),
        r matches Some(samples) ==> forall|i: int|
            0 <= i < samples@.len() ==> in_unit_range(#[trigger] samples@[i]),
{
    match brotli_decompress(data) {
        Some(packed) => Some(decode_packed(&packed)),
        None => None,
    }
}

} // verus!
