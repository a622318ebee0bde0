//! Framing for a JSON-lines byte stream: each frame is one line, a payload
//! followed by a single line-feed byte (10).
//!
//! The framing itself — where a frame ends, how the buffer is split, how a
//! payload is framed for writing — is plain byte logic and is verified
//! here. Turning a payload into bytes and back (the JSON step) is left to
//! the caller.

use core::marker::PhantomData;
use vstd::prelude::*;

verus! {

/// A codec for a JSON-lines stream, generic over the item type `S` that
/// the caller serializes into each line. The codec itself carries no
/// state: every frame is self-delimiting.
#[verifier::reject_recursive_types(S)]
pub struct JsonLinesCodec<S>(PhantomData<S>);

impl<S> JsonLinesCodec<S> {
    /// A fresh codec.
    pub fn new() -> (r: Self) {
        JsonLinesCodec(PhantomData)
    }
}

/// Byte `i` of `s` is the first line feed.
pub open spec fn newline_at(s: Seq<u8>, i: int) -> bool {
    &&& 0 <= i < s.len()
    &&& s[i] == 10u8
    &&& forall|j: int| 0 <= j < i ==> s[j] != 10u8
}

/// Position of the first line feed in `src`, or `None` when no complete
/// frame has arrived yet.
pub fn find_newline(src: &[u8]) -> (r: Option<usize>)
    ensures
        r matches Some(i) ==> newline_at(src@, i as int),
        r is None ==> forall|j: int| 0 <= j < src@.len() ==> src@[j] != 10u8,
{
    let n: usize = src.len();
    let mut i: usize = 0;
    while i < n
        invariant
            i <= n,
            n == src@.len(),
            forall|j: int| 0 <= j < i ==> src@[j] != 10u8,
        decreases n - i,
    {
        if src[i] == 10u8 {
            return Some(i);
        }
        i = i + 1;
    }
    None
}

/// Takes the first complete frame off the front of `src`: the bytes up to
/// and including the first line feed leave the buffer and are returned;
/// what follows them stays. Without a line feed the buffer is untouched
/// and `None` says that more data is needed.
pub fn split_frame(src: &mut Vec<u8>) -> (r: Option<Vec<u8>>)
    ensures
        r matches Some(line) ==> {
            let i = line@.len() - 1;
            &&& newline_at(old(src)@, i)
            &&& line@ == old(src)@.subrange(0, i + 1)
            &&& final(src)@ == old(src)@.subrange(i + 1, old(src)@.len() as int)
        },
        r is None ==> {
            &&& (forall|j: int| 0 <= j < old(src)@.len() ==> old(src)@[j] != 10u8)
            &&& final(src)@ == old(src)@
        },
{
    let buf_len: usize = src.len();
    match find_newline(src.as_slice()) {
        Some(i) => {
            assert(i < buf_len);
            let line_end: usize = i + 1;
            let mut rest = src.split_off(line_end);
            core::mem::swap(src, &mut rest);
            Some(rest)
        },
        None => None,
    }
}

/// Frames `payload` for writing: appends it to `dst`, then the single
/// line-feed terminator.
pub fn append_frame(dst: &mut Vec<u8>, payload: &[u8])
    ensures
        final(dst)@ == old(dst)@ + payload@ + seq![10u8],
{
    let n: usize = payload.len();
    let mut k: usize = 0;
    while k < n
        invariant
            k <= n,
            n == payload@.len(),
            dst@ == old(dst)@ + payload@.subrange(0, k as int),
        decreases n - k,
    {
        dst.push(payload[k]);
        proof {
            assert(old(dst)@ + payload@.subrange(0, (k + 1) as int) =~= (old(dst)@
                + payload@.subrange(0, k as int)).push(payload@[k as int]));
        }
        k = k + 1;
    }
    dst.push(10u8);
    proof {
        assert(payload@.subrange(0, n as int) =~= payload@);
        assert(old(dst)@ + payload@ + seq![10u8] =~= (old(dst)@ + payload@).push(10u8));
    }
}

/// One entry of the slow pull-request feed: what each JSON line of that
/// stream carries.
#[derive(Debug, Clone)]
pub struct PrTitle {
    /// The pull request number.
    pub id: u32,
    /// Its title.
    pub title: String,
}

} // verus!
