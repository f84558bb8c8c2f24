//! Streaming reconstruction of signed 16-bit little-endian samples from a
//! raw PCM byte stream that arrives in chunks of arbitrary size.

use vstd::prelude::*;

verus! {

/// Failure of the PCM byte stream itself.
#[derive(Clone, Copy, Debug, PartialEq, Eq)]
pub enum PcmError {
    /// The stream ended with one unpaired byte: half a sample.
    TruncatedStream,
}

/// The sample value encoded by the little-endian byte pair `(lo, hi)`,
/// read as a two's-complement 16-bit integer.
pub open spec fn sample_of(lo: u8, hi: u8) -> i16 {
    (if hi >= 128 {
        lo + 256 * (hi as int) - 65536
    } else {
        lo + 256 * (hi as int)
    }) as i16
}

/// The samples encoded by `bytes`, taken as consecutive little-endian
/// pairs; a trailing unpaired byte encodes no sample.
pub open spec fn decode_pairs(bytes: Seq<u8>) -> Seq<i16>
    decreases bytes.len(),
{
    if bytes.len() < 2 {
        Seq::empty()
    } else {
        seq![sample_of(bytes[0], bytes[1])] + decode_pairs(bytes.subrange(2, bytes.len() as int))
    }
}

/// Feeding one more byte either leaves the decoded samples unchanged (the
/// byte starts a new pair) or completes a pair with the previous byte.
pub proof fn lemma_decode_pairs_push(s: Seq<u8>, b: u8)
    ensures
        decode_pairs(s.push(b)) == if s.len() % 2 == 0 {
            decode_pairs(s)
        } else {
            decode_pairs(s).push(sample_of(s.last(), b))
        },
    decreases s.len(),
{
    let t = s.push(b);
    if s.len() == 0 {
        assert(decode_pairs(t) =~= decode_pairs(s));
    } else if s.len() == 1 {
        assert(t.subrange(2, t.len() as int) =~= Seq::<u8>::empty());
        assert(decode_pairs(Seq::<u8>::empty()) =~= Seq::<i16>::empty());
        assert(decode_pairs(t) =~= decode_pairs(s).push(sample_of(s.last(), b)));
    } else {
        let tail = s.subrange(2, s.len() as int);
        assert(t.subrange(2, t.len() as int) =~= tail.push(b));
        lemma_decode_pairs_push(tail, b);
        assert(tail.len() % 2 == s.len() % 2);
        if s.len() % 2 == 0 {
            assert(decode_pairs(t) =~= decode_pairs(s));
        } else {
            assert(tail.last() == s.last());
            assert(decode_pairs(t) =~= decode_pairs(s).push(sample_of(s.last(), b)));
        }
    }
}

/// Every byte pair yields exactly one sample: nothing is dropped.
pub proof fn lemma_decode_pairs_len(s: Seq<u8>)
    ensures
        decode_pairs(s).len() == s.len() / 2,
    decreases s.len(),
{
    if s.len() >= 2 {
        lemma_decode_pairs_len(s.subrange(2, s.len() as int));
    }
}

fn combine_sample(lo: u8, hi: u8) -> (s: i16)
    ensures
        s == sample_of(lo, hi),
{
    let w: u32 = (lo as u32) + 256 * (hi as u32);
    if w >= 32768 {
        let v: i32 = (w as i32) - 65536;
        v as i16
    } else {
        w as i16
    }
}

/// Consumes a chunked PCM byte stream and materializes the decoded
/// samples; pairs may straddle chunk boundaries, and a stream of odd
/// total length is rejected at the end, never silently shortened.
pub struct PcmSink {
    samples: Vec<i16>,
    pending: Option<u8>,
    fed: Ghost<Seq<u8>>,
}

impl PcmSink {
    /// All bytes fed to this sink so far, in order.
    pub closed spec fn fed_bytes(self) -> Seq<u8> {
        self.fed@
    }

    /// Internal consistency: the stored samples are exactly the decoded
    /// pairs of the fed bytes, and `pending` is the unpaired trailing
    /// byte when the fed length is odd.
    pub closed spec fn wf(self) -> bool {
        &&& self.samples@ == decode_pairs(self.fed@)
        &&& if self.fed@.len() % 2 == 0 {
            self.pending is None
        } else {
            self.pending == Some(self.fed@.last())
        }
    }

    /// A fresh sink with no bytes fed.
    pub fn new() -> (r: PcmSink)
        ensures
            r.wf(),
            r.fed_bytes() == Seq::<u8>::empty(),
    {
        PcmSink { samples: Vec::new(), pending: None, fed: Ghost(Seq::empty()) }
    }

    /// Feeds one chunk of the byte stream, of any length.
    pub fn write_chunk(&mut self, chunk: &[u8])
        requires
            old(self).wf(),
        ensures
            final(self).wf(),
            final(self).fed_bytes() == old(self).fed_bytes() + chunk@,
    {
        let mut i: usize = 0;
        while i < chunk.len()
            invariant
                i <= chunk@.len(),
                self.wf(),
                self.fed_bytes() == old(self).fed_bytes() + chunk@.subrange(0, i as int),
            decreases chunk@.len() - i,
        {
            let b = chunk[i];
            let ghost fed_before = self.fed@;
            let p = self.pending;
            match p {
                Some(lo) => {
                    let s = combine_sample(lo, b);
                    self.samples.push(s);
                    self.pending = None;
                },
                None => {
                    self.pending = Some(b);
                },
            }
            self.fed = Ghost(self.fed@.push(b));
            proof {
                lemma_decode_pairs_push(fed_before, b);
                assert(chunk@.subrange(0, i + 1) =~= chunk@.subrange(0, i as int).push(
                    chunk@[i as int],
                ));
                assert(self.fed@ =~= old(self).fed_bytes() + chunk@.subrange(0, i + 1));
            }
            i = i + 1;
        }
        proof {
            assert(chunk@.subrange(0, chunk@.len() as int) =~= chunk@);
        }
    }

    /// Ends the stream. An even byte total yields every decoded sample in
    /// order; an odd total is a truncated stream and is an error, never
    /// silently dropped or padded.
    pub fn finalize(self) -> (r: Result<Vec<i16>, PcmError>)
        requires
            self.wf(),
        ensures
            match r {
                Ok(v) => self.fed_bytes().len() % 2 == 0 && v@ == decode_pairs(self.fed_bytes()),
                Err(e) => self.fed_bytes().len() % 2 != 0 && e == PcmError::TruncatedStream,
            },
    {
        match self.pending {
            None => Ok(self.samples),
            Some(_) => Err(PcmError::TruncatedStream),
        }
    }
}

} // verus!
