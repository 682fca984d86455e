//! Stream framer: a first-in-first-out byte buffer that accumulates whatever
//! a non-blocking source yields and hands out fixed-size chunks on demand —
//! exactly `n` bytes or nothing, never a partial chunk.

use vstd::prelude::*;
use vstd::seq_lib::*;
use std::collections::VecDeque;
use std::io::Read;
use crate::QuoteError;

verus! {

/// How many bytes one read from the source may yield at most.
pub const READ_CHUNK_LEN: usize = 512;

/// Relies on `std::io::Read::read`: reads at most `READ_CHUNK_LEN` bytes and
/// returns the bytes it yielded. A read error of kind `WouldBlock` or
/// `UnexpectedEof` means "no new bytes, not an error" and yields an empty
/// vector; any other error is surfaced as `Err`.
#[verifier::external_body]
fn read_available<T: Read>(stream: &mut T) -> (r: Result<Vec<u8>, ()>)
    ensures
        r matches Ok(bytes) ==> bytes@.len() <= READ_CHUNK_LEN,
{
    let mut buf = vec![0u8; READ_CHUNK_LEN];
    match stream.read(&mut buf) {
        Ok(len) => {
            buf.truncate(len);
            Ok(buf)
        },
        Err(e) => match e.kind() {
            std::io::ErrorKind::WouldBlock | std::io::ErrorKind::UnexpectedEof => Ok(Vec::new()),
            _ => Err(()),
        },
    }
}

/// A first-in-first-out byte buffer between a readable source and the framed
/// protocol above it.
pub struct StreamReader {
    buf: VecDeque<u8>,
}

impl StreamReader {
    /// The bytes currently buffered, oldest first.
    pub closed spec fn view(self) -> Seq<u8> {
        self.buf@
    }

    /// A fresh reader buffers nothing.
    pub fn new() -> (r: StreamReader)
        ensures
            r@ == Seq::<u8>::empty(),
    {
        StreamReader { buf: VecDeque::new() }
    }

    /// Appends the given bytes to the end of the buffer, in order.
    pub fn feed(&mut self, bytes: &[u8])
        ensures
            final(self)@ == old(self)@ + bytes@,
    {
        let n = bytes.len();
        let mut i: usize = 0;
        while i < n
            invariant
                n == bytes@.len(),
                i <= n,
                self.buf@ == old(self).buf@ + bytes@.subrange(0, i as int),
            decreases n - i,
        {
            self.buf.push_back(bytes[i]);
            proof {
                assert(bytes@.subrange(0, i + 1) =~= bytes@.subrange(0, i as int).push(
                    bytes@[i as int],
                ));
            }
            i = i + 1;
        }
        proof {
            assert(bytes@.subrange(0, n as int) =~= bytes@);
        }
    }

    /// Appends whatever the non-blocking source yields right now. A source
    /// that merely has nothing to say (would-block, unexpected end of file)
    /// appends nothing and is not an error; any other source failure leaves
    /// the buffer unchanged and surfaces as `TransportError`.
    pub fn read_from_stream<T: Read>(&mut self, stream: &mut T) -> (r: Result<(), QuoteError>)
        ensures
            match r {
                Ok(()) => old(self)@.is_prefix_of(final(self)@),
                Err(e) => e == QuoteError::TransportError && final(self)@ == old(self)@,
            },
    {
        match read_available(stream) {
            Ok(bytes) => {
                self.feed(bytes.as_slice());
                Ok(())
            },
            Err(()) => Err(QuoteError::TransportError),
        }
    }

    /// Pops exactly the first `chunk_len` buffered bytes, in order, or
    /// returns `None` — leaving the buffer untouched — if fewer are buffered.
    /// Never returns a partial chunk.
    pub fn extract_chunk(&mut self, chunk_len: usize) -> (r: Option<Vec<u8>>)
        ensures
            match r {
                Some(chunk) => old(self)@.len() >= chunk_len && chunk@ == old(self)@.take(
                    chunk_len as int,
                ) && final(self)@ == old(self)@.skip(chunk_len as int),
                None => old(self)@.len() < chunk_len && final(self)@ == old(self)@,
            },
    {
        if self.buf.len() < chunk_len {
            return None;
        }
        let mut res: Vec<u8> = Vec::new();
        let mut i: usize = 0;
        while i < chunk_len
            invariant
                i <= chunk_len,
                chunk_len <= old(self)@.len(),
                res@ == old(self).buf@.take(i as int),
                self.buf@ == old(self).buf@.skip(i as int),
            decreases chunk_len - i,
        {
            proof {
                assert(self.buf@.len() == old(self).buf@.len() - i);
            }
            let b = match self.buf.pop_front() {
                Some(b) => b,
                None => {
                    proof {
                        assert(false);
                    }
                    0
                },
            };
            res.push(b);
            proof {
                assert(old(self).buf@.take(i + 1) =~= old(self).buf@.take(i as int).push(
                    old(self).buf@[i as int],
                ));
                assert(old(self).buf@.skip(i as int).subrange(
                    1,
                    old(self).buf@.skip(i as int).len() as int,
                ) =~= old(self).buf@.skip(i + 1));
            }
            i = i + 1;
        }
        Some(res)
    }
}

impl Default for StreamReader {
    /// A fresh reader buffers nothing.
    fn default() -> (r: StreamReader)
        ensures
            r@ == Seq::<u8>::empty(),
    {
        StreamReader::new()
    }
}

} // verus!
